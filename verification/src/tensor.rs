//! The secret-key tensor product: from two GLWE secret keys of one shape, a
//! higher-dimensional key holding every pairwise negacyclic product of their
//! polynomials.
//!
//! The output key's polynomials are the products for the index pairs
//! `(i, j)` with `i <= j`, laid out row-major: first every pair of row 0 in
//! order of `j`, then row 1, and so on — the canonical ordering every
//! consumer of a tensor-product key relies on.

use vstd::prelude::*;
use crate::torus::TorusElement;
use crate::params::PolynomialSize;
use crate::polynomial::{Polynomial, negacyclic_coeff};
use crate::glwe::GlweSecretKey;

verus! {

/// The index of the first pair of row `i` in the row-major enumeration of
/// the pairs `(i, j)` with `i <= j < k`.
pub open spec fn tensor_row_start(i: int, k: int) -> int
    decreases i,
{
    if i <= 0 {
        0
    } else {
        tensor_row_start(i - 1, k) + (k - (i - 1))
    }
}

/// The index of the pair `(i, j)`, `i <= j`, in the row-major enumeration.
pub open spec fn tensor_pair_index(i: int, j: int, k: int) -> int {
    tensor_row_start(i, k) + (j - i)
}

/// The number of pairs `(i, j)` with `0 <= i <= j < k`.
pub open spec fn tensor_pair_count(k: int) -> int {
    tensor_row_start(k, k)
}

/// Row starts grow with the row index.
proof fn lemma_row_start_monotone(i1: int, i2: int, k: int)
    requires
        0 <= i1 <= i2 <= k,
    ensures
        tensor_row_start(i1, k) <= tensor_row_start(i2, k),
    decreases i2 - i1,
{
    if i1 < i2 {
        lemma_row_start_monotone(i1, i2 - 1, k);
    }
}

/// Every pair of a row sits at or after the row's start and before the next
/// row's start.
proof fn lemma_pair_index_in_row(i: int, j: int, k: int)
    requires
        0 <= i <= j < k,
    ensures
        tensor_row_start(i, k) <= tensor_pair_index(i, j, k) < tensor_row_start(i + 1, k),
{
}

/// `r` is the tensor product of `k1` and `k2`: one polynomial per pair
/// `(i, j)` with `i <= j`, row-major, each the exact negacyclic product of
/// `k1`'s `i`-th and `k2`'s `j`-th polynomial.
pub open spec fn is_tensor_product_key<T: TorusElement>(
    r: GlweSecretKey<T>,
    k1: GlweSecretKey<T>,
    k2: GlweSecretKey<T>,
) -> bool {
    &&& r.wf()
    &&& r.poly_size == k1.poly_size
    &&& r.polys@.len() == tensor_pair_count(k1.polys@.len() as int)
    &&& forall|i: int, j: int, c: int|
        0 <= i <= j < k1.polys@.len() && 0 <= c < k1.poly_size.0
            ==> #[trigger] r.polys@[tensor_pair_index(i, j, k1.polys@.len() as int)].coef_int(c)
            == negacyclic_coeff(
            k1.polys@[i].coefs@,
            k2.polys@[j].coefs@,
            k1.poly_size.0 as int,
            c,
        )
}

/// The precondition violations of the tensor-product operation.
#[derive(Clone, Copy, Debug, PartialEq, Eq, Structural)]
pub enum TensorProductGlweSecretKeyCreationError {
    /// The two input keys disagree on polynomial size.
    PolynomialSizeMismatch,
    /// The two input keys have equal polynomial size but disagree on GLWE
    /// dimension.
    InputGlweDimensionMismatch,
}

impl TensorProductGlweSecretKeyCreationError {
    /// The structural precondition check of the tensor product: rejects keys
    /// of unequal polynomial size, then keys of unequal dimension, and
    /// accepts exactly the pairs that agree on both. Nothing is mutated.
    pub fn perform_generic_checks<T: TorusElement>(
        input1: &GlweSecretKey<T>,
        input2: &GlweSecretKey<T>,
    ) -> (r: Result<(), Self>)
        ensures
            r is Ok <==> (input1.poly_size.0 == input2.poly_size.0 && input1.polys@.len()
                == input2.polys@.len()),
            input1.poly_size.0 != input2.poly_size.0 ==> r == Result::<(), Self>::Err(
                TensorProductGlweSecretKeyCreationError::PolynomialSizeMismatch,
            ),
            input1.poly_size.0 == input2.poly_size.0 && input1.polys@.len()
                != input2.polys@.len() ==> r == Result::<(), Self>::Err(
                TensorProductGlweSecretKeyCreationError::InputGlweDimensionMismatch,
            ),
    {
        if input1.polynomial_size().0 != input2.polynomial_size().0 {
            return Err(TensorProductGlweSecretKeyCreationError::PolynomialSizeMismatch);
        }
        if input1.glwe_dimension().0 != input2.glwe_dimension().0 {
            return Err(TensorProductGlweSecretKeyCreationError::InputGlweDimensionMismatch);
        }
        Ok(())
    }
}

/// An engine operation that builds the tensor product of two GLWE secret
/// keys. The checked entry validates the structural preconditions and
/// reports a violation without touching its inputs; the unchecked entry
/// demands them up front.
pub trait TensorProductGlweSecretKeyCreationEngine<T: TorusElement> {
    /// Checked entry: fails with `PolynomialSizeMismatch` when the keys'
    /// polynomial sizes differ, with `InputGlweDimensionMismatch` when only
    /// their dimensions differ, and otherwise returns the tensor product.
    fn create_tensor_product_glwe_secret_key(
        &mut self,
        input1: &GlweSecretKey<T>,
        input2: &GlweSecretKey<T>,
    ) -> (r: Result<GlweSecretKey<T>, TensorProductGlweSecretKeyCreationError>)
        requires
            input1.wf(),
            input2.wf(),
        ensures
            r is Ok <==> (input1.poly_size.0 == input2.poly_size.0 && input1.polys@.len()
                == input2.polys@.len()),
            r matches Ok(key) ==> is_tensor_product_key(key, *input1, *input2),
            input1.poly_size.0 != input2.poly_size.0 ==> (r matches Err(e) && e
                == TensorProductGlweSecretKeyCreationError::PolynomialSizeMismatch),
            input1.poly_size.0 == input2.poly_size.0 && input1.polys@.len()
                != input2.polys@.len() ==> (r matches Err(e) && e
                == TensorProductGlweSecretKeyCreationError::InputGlweDimensionMismatch),
    ;

    /// Unchecked entry: the caller must have established that the keys agree
    /// on polynomial size and dimension.
    fn create_tensor_product_glwe_secret_key_unchecked(
        &mut self,
        input1: &GlweSecretKey<T>,
        input2: &GlweSecretKey<T>,
    ) -> (r: GlweSecretKey<T>)
        requires
            input1.wf(),
            input2.wf(),
            input1.poly_size == input2.poly_size,
            input1.polys@.len() == input2.polys@.len(),
        ensures
            is_tensor_product_key(r, *input1, *input2),
    ;
}

impl<T: TorusElement> GlweSecretKey<T> {
    /// Builds the tensor product of `self` and `other`: the key of every
    /// pairwise polynomial product, self-products included, row-major over
    /// the pairs `(i, j)` with `i <= j`.
    pub fn create_tensor_product(&self, other: &GlweSecretKey<T>) -> (r: GlweSecretKey<T>)
        requires
            self.wf(),
            other.wf(),
            self.poly_size == other.poly_size,
            self.polys@.len() == other.polys@.len(),
        ensures
            is_tensor_product_key(r, *self, *other),
    {
        let k = self.polys.len();
        let n = self.poly_size;
        let mut polys: Vec<Polynomial<T>> = Vec::new();
        let mut i: usize = 0;
        while i < k
            invariant
                i <= k,
                k == self.polys@.len(),
                self.wf(),
                other.wf(),
                other.polys@.len() == k,
                self.poly_size == other.poly_size,
                n == self.poly_size,
                n.0 >= 1,
                polys@.len() == tensor_row_start(i as int, k as int),
                forall|l: int| 0 <= l < polys@.len() ==> (#[trigger] polys@[l]).len() == n.0,
                forall|a: int, b: int, c: int|
                    0 <= a < i && a <= b < k && 0 <= c < n.0 ==> #[trigger] polys@[
                        tensor_pair_index(a, b, k as int)].coef_int(c) == negacyclic_coeff(
                        self.polys@[a].coefs@,
                        other.polys@[b].coefs@,
                        n.0 as int,
                        c,
                    ),
            decreases k - i,
        {
            let mut j: usize = i;
            while j < k
                invariant
                    i <= j <= k,
                    i < k,
                    k == self.polys@.len(),
                    self.wf(),
                    other.wf(),
                    other.polys@.len() == k,
                    self.poly_size == other.poly_size,
                    n == self.poly_size,
                    n.0 >= 1,
                    polys@.len() == tensor_pair_index(i as int, j as int, k as int),
                    forall|l: int| 0 <= l < polys@.len() ==> (#[trigger] polys@[l]).len() == n.0,
                    forall|a: int, b: int, c: int|
                        0 <= a < i && a <= b < k && 0 <= c < n.0 ==> #[trigger] polys@[
                            tensor_pair_index(a, b, k as int)].coef_int(c) == negacyclic_coeff(
                            self.polys@[a].coefs@,
                            other.polys@[b].coefs@,
                            n.0 as int,
                            c,
                        ),
                    forall|b: int, c: int|
                        i <= b < j && 0 <= c < n.0 ==> #[trigger] polys@[tensor_pair_index(
                            i as int,
                            b,
                            k as int,
                        )].coef_int(c) == negacyclic_coeff(
                            self.polys@[i as int].coefs@,
                            other.polys@[b].coefs@,
                            n.0 as int,
                            c,
                        ),
                decreases k - j,
            {
                let ghost oldpolys = polys@;
                let mut tmp = Polynomial::allocate(n);
                tmp.fill_with_negacyclic_mul(&self.polys[i], &other.polys[j]);
                let ghost tmpg = tmp;
                polys.push(tmp);
                proof {
                    assert(polys@ == oldpolys.push(tmpg));
                    assert forall|a: int, b: int, c: int|
                        0 <= a < i && a <= b < k && 0 <= c < n.0 implies #[trigger] polys@[
                        tensor_pair_index(a, b, k as int)].coef_int(c) == negacyclic_coeff(
                        self.polys@[a].coefs@,
                        other.polys@[b].coefs@,
                        n.0 as int,
                        c,
                    ) by {
                        lemma_pair_index_in_row(a, b, k as int);
                        lemma_row_start_monotone(0, a, k as int);
                        lemma_row_start_monotone(a + 1, i as int, k as int);
                        assert(tensor_pair_index(a, b, k as int) < oldpolys.len());
                        assert(polys@[tensor_pair_index(a, b, k as int)] == oldpolys.push(tmpg)[
                            tensor_pair_index(a, b, k as int)]);
                        assert(oldpolys.push(tmpg)[tensor_pair_index(a, b, k as int)] == oldpolys[
                            tensor_pair_index(a, b, k as int)]);
                    }
                    assert forall|b: int, c: int|
                        i <= b < j + 1 && 0 <= c < n.0 implies #[trigger] polys@[
                        tensor_pair_index(i as int, b, k as int)].coef_int(c) == negacyclic_coeff(
                        self.polys@[i as int].coefs@,
                        other.polys@[b].coefs@,
                        n.0 as int,
                        c,
                    ) by {
                        lemma_row_start_monotone(0, i as int, k as int);
                        if b < j as int {
                            assert(tensor_pair_index(i as int, b, k as int) < oldpolys.len());
                            assert(oldpolys.push(tmpg)[tensor_pair_index(i as int, b, k as int)]
                                == oldpolys[tensor_pair_index(i as int, b, k as int)]);
                        } else {
                            assert(tensor_pair_index(i as int, b, k as int) == oldpolys.len());
                            assert(polys@[tensor_pair_index(i as int, b, k as int)] == tmpg);
                        }
                    }
                }
                j = j + 1;
            }
            i = i + 1;
        }
        GlweSecretKey::from_polynomial_list(polys, n)
    }
}

} // verus!
