//! Structural parameters of keys and ciphertexts: dimensions, polynomial
//! degrees, counts and decomposition settings, each as its own type so that
//! the two cannot be confused at a call site.

use vstd::prelude::*;

verus! {

/// The number of mask elements of an LWE ciphertext, equal to the length of
/// the LWE secret key.
#[derive(Clone, Copy, Debug, PartialEq, Eq, Structural)]
pub struct LweDimension(pub usize);

/// The number of torus elements of an LWE ciphertext: the dimension plus the
/// body.
#[derive(Clone, Copy, Debug, PartialEq, Eq, Structural)]
pub struct LweSize(pub usize);

/// The number of mask polynomials of a GLWE ciphertext, equal to the number
/// of polynomials of the GLWE secret key.
#[derive(Clone, Copy, Debug, PartialEq, Eq, Structural)]
pub struct GlweDimension(pub usize);

/// The number of polynomials of a GLWE ciphertext: the dimension plus the
/// body polynomial.
#[derive(Clone, Copy, Debug, PartialEq, Eq, Structural)]
pub struct GlweSize(pub usize);

/// The number of coefficients of a polynomial.
#[derive(Clone, Copy, Debug, PartialEq, Eq, Structural)]
pub struct PolynomialSize(pub usize);

/// The number of polynomials of a polynomial list.
#[derive(Clone, Copy, Debug, PartialEq, Eq, Structural)]
pub struct PolynomialCount(pub usize);

/// The number of ciphertexts of a ciphertext vector.
#[derive(Clone, Copy, Debug, PartialEq, Eq, Structural)]
pub struct LweCiphertextCount(pub usize);

/// The number of ciphertexts of a GLWE ciphertext list.
#[derive(Clone, Copy, Debug, PartialEq, Eq, Structural)]
pub struct CiphertextCount(pub usize);

/// The number of plaintexts of a plaintext list.
#[derive(Clone, Copy, Debug, PartialEq, Eq, Structural)]
pub struct PlaintextCount(pub usize);

/// Base-2 logarithm of the radix of a gadget decomposition.
#[derive(Clone, Copy, Debug, PartialEq, Eq, Structural)]
pub struct DecompositionBaseLog(pub usize);

/// The number of digits kept by a gadget decomposition.
#[derive(Clone, Copy, Debug, PartialEq, Eq, Structural)]
pub struct DecompositionLevelCount(pub usize);

impl LweDimension {
    /// The size of a ciphertext of this dimension: one more element, the
    /// body.
    pub fn to_lwe_size(self) -> (r: LweSize)
        requires
            self.0 < usize::MAX,
        ensures
            r.0 == self.0 + 1,
    {
        LweSize(self.0 + 1)
    }
}

impl LweSize {
    /// The dimension of a ciphertext of this size.
    pub fn to_lwe_dimension(self) -> (r: LweDimension)
        requires
            self.0 >= 1,
        ensures
            r.0 == self.0 - 1,
    {
        LweDimension(self.0 - 1)
    }
}

impl GlweDimension {
    /// The size of a ciphertext of this dimension: one more polynomial, the
    /// body.
    pub fn to_glwe_size(self) -> (r: GlweSize)
        requires
            self.0 < usize::MAX,
        ensures
            r.0 == self.0 + 1,
    {
        GlweSize(self.0 + 1)
    }
}

impl GlweSize {
    /// The dimension of a ciphertext of this size.
    pub fn to_glwe_dimension(self) -> (r: GlweDimension)
        requires
            self.0 >= 1,
        ensures
            r.0 == self.0 - 1,
    {
        GlweDimension(self.0 - 1)
    }
}

} // verus!
