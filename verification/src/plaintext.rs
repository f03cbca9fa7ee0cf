//! Encoded values before or without noise embedding: plaintexts carry the
//! application's fixed-point encoding and enter the torus; cleartexts are
//! bare integers that scale ciphertexts without being encoded.

use vstd::prelude::*;
use crate::torus::TorusElement;
use crate::params::{PlaintextCount, CiphertextCount};

verus! {

/// An encoded scalar, already shifted into the torus representation.
#[derive(Clone, Copy, Debug)]
pub struct Plaintext<T: TorusElement>(pub T);

/// A bare integer used as a multiplicative scalar.
#[derive(Clone, Copy, Debug)]
pub struct Cleartext<T: TorusElement>(pub T);

/// A list of encoded scalars, one per coefficient slot.
#[derive(Clone, Debug)]
pub struct PlaintextList<T: TorusElement> {
    pub coefs: Vec<T>,
}

/// A list of bare integer scalars.
#[derive(Clone, Debug)]
pub struct CleartextVector<T: TorusElement> {
    pub values: Vec<T>,
}

impl<T: TorusElement> PlaintextList<T> {
    /// Wraps a coefficient buffer as a plaintext list.
    pub fn from_container(coefs: Vec<T>) -> (r: Self)
        ensures
            r.coefs@ == coefs@,
    {
        PlaintextList { coefs }
    }

    /// The number of plaintexts of the list.
    pub fn count(&self) -> (r: PlaintextCount)
        ensures
            r.0 == self.coefs@.len(),
    {
        PlaintextCount(self.coefs.len())
    }
}

impl<T: TorusElement> CleartextVector<T> {
    /// Wraps a value buffer as a cleartext vector.
    pub fn from_container(values: Vec<T>) -> (r: Self)
        ensures
            r.values@ == values@,
    {
        CleartextVector { values }
    }

    /// The number of cleartexts of the vector.
    pub fn count(&self) -> (r: CiphertextCount)
        ensures
            r.0 == self.values@.len(),
    {
        CiphertextCount(self.values.len())
    }
}

} // verus!
