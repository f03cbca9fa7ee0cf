//! Vectors of LWE ciphertexts sharing one dimension, and the operations that
//! act on them elementwise or fold them into one ciphertext.

use vstd::prelude::*;
use vstd::arithmetic::div_mod::lemma_small_mod;
use crate::torus::TorusElement;
use crate::params::{LweDimension, LweSize, LweCiphertextCount};
use crate::plaintext::{Plaintext, CleartextVector};
use crate::lwe::LweCiphertext;

verus! {

/// A vector of independent LWE ciphertexts of one shared dimension.
#[derive(Clone, Debug)]
pub struct LweCiphertextVector<T: TorusElement> {
    pub cts: Vec<LweCiphertext<T>>,
    pub lwe_size: LweSize,
}

impl<T: TorusElement> LweCiphertextVector<T> {
    /// Every ciphertext of the vector has the shared dimension.
    pub open spec fn wf(self) -> bool {
        &&& self.lwe_size.0 >= 1
        &&& forall|i: int|
            0 <= i < self.cts@.len() ==> (#[trigger] self.cts@[i]).dim() == self.lwe_size.0 - 1
    }

    /// The number of ciphertexts.
    pub fn lwe_ciphertext_count(&self) -> (r: LweCiphertextCount)
        ensures
            r.0 == self.cts@.len(),
    {
        LweCiphertextCount(self.cts.len())
    }

    /// The shared dimension.
    pub fn lwe_dimension(&self) -> (r: LweDimension)
        requires
            self.wf(),
        ensures
            r.0 == self.lwe_size.0 - 1,
    {
        LweDimension(self.lwe_size.0 - 1)
    }

    /// Allocates a vector of `count` all-zero ciphertexts: trivial
    /// encryptions of zero, which every key decrypts to zero exactly.
    pub fn trivial_encrypt_zeros(dimension: LweDimension, count: LweCiphertextCount) -> (r: Self)
        requires
            dimension.0 < usize::MAX,
        ensures
            r.wf(),
            r.cts@.len() == count.0,
            r.lwe_size.0 == dimension.0 + 1,
            forall|i: int, j: int|
                0 <= i < count.0 && 0 <= j < dimension.0 ==> (#[trigger] r.cts@[i].mask_int(j))
                    == 0,
            forall|i: int| 0 <= i < count.0 ==> (#[trigger] r.cts@[i]).body_int() == 0,
    {
        let size = dimension.to_lwe_size();
        let mut cts: Vec<LweCiphertext<T>> = Vec::new();
        let mut i: usize = 0;
        while i < count.0
            invariant
                i <= count.0,
                cts@.len() == i,
                size.0 == dimension.0 + 1,
                forall|k: int| 0 <= k < i ==> (#[trigger] cts@[k]).dim() == dimension.0,
                forall|k: int, j: int|
                    0 <= k < i && 0 <= j < dimension.0 ==> (#[trigger] cts@[k].mask_int(j)) == 0,
                forall|k: int| 0 <= k < i ==> (#[trigger] cts@[k]).body_int() == 0,
            decreases count.0 - i,
        {
            let ct = LweCiphertext::allocate(size);
            cts.push(ct);
            i = i + 1;
        }
        LweCiphertextVector { cts, lwe_size: size }
    }

    /// Discarding elementwise addition: overwrites every ciphertext of
    /// `self` with the sum of the corresponding ciphertexts of `a` and `b`.
    pub fn fill_with_add_vector(&mut self, a: &Self, b: &Self)
        requires
            old(self).wf(),
            a.wf(),
            b.wf(),
            old(self).lwe_size == a.lwe_size,
            a.lwe_size == b.lwe_size,
            old(self).cts@.len() == a.cts@.len(),
            a.cts@.len() == b.cts@.len(),
        ensures
            final(self).wf(),
            final(self).lwe_size == old(self).lwe_size,
            final(self).cts@.len() == old(self).cts@.len(),
            forall|i: int|
                0 <= i < a.cts@.len() ==> (#[trigger] final(self).cts@[i]).stores_add(
                    a.cts@[i],
                    b.cts@[i],
                ),
    {
        let n = a.cts.len();
        let mut i: usize = 0;
        while i < n
            invariant
                i <= n,
                self.cts@.len() == n,
                a.cts@.len() == n,
                b.cts@.len() == n,
                a.wf(),
                b.wf(),
                self.lwe_size == a.lwe_size,
                a.lwe_size == b.lwe_size,
                self.lwe_size.0 >= 1,
                forall|k: int|
                    0 <= k < n ==> (#[trigger] self.cts@[k]).dim() == self.lwe_size.0 - 1,
                forall|k: int|
                    0 <= k < i ==> (#[trigger] self.cts@[k]).stores_add(a.cts@[k], b.cts@[k]),
            decreases n - i,
        {
            let mut ct = LweCiphertext::allocate(self.lwe_size);
            ct.fill_with_add(&a.cts[i], &b.cts[i]);
            self.cts.set(i, ct);
            i = i + 1;
        }
    }

    /// Discarding elementwise subtraction: overwrites every ciphertext of
    /// `self` with the difference of the corresponding ciphertexts of `a`
    /// and `b`.
    pub fn fill_with_sub_vector(&mut self, a: &Self, b: &Self)
        requires
            old(self).wf(),
            a.wf(),
            b.wf(),
            old(self).lwe_size == a.lwe_size,
            a.lwe_size == b.lwe_size,
            old(self).cts@.len() == a.cts@.len(),
            a.cts@.len() == b.cts@.len(),
        ensures
            final(self).wf(),
            final(self).lwe_size == old(self).lwe_size,
            final(self).cts@.len() == old(self).cts@.len(),
            forall|i: int|
                0 <= i < a.cts@.len() ==> (#[trigger] final(self).cts@[i]).stores_sub(
                    a.cts@[i],
                    b.cts@[i],
                ),
    {
        let n = a.cts.len();
        let mut i: usize = 0;
        while i < n
            invariant
                i <= n,
                self.cts@.len() == n,
                a.cts@.len() == n,
                b.cts@.len() == n,
                a.wf(),
                b.wf(),
                self.lwe_size == a.lwe_size,
                a.lwe_size == b.lwe_size,
                self.lwe_size.0 >= 1,
                forall|k: int|
                    0 <= k < n ==> (#[trigger] self.cts@[k]).dim() == self.lwe_size.0 - 1,
                forall|k: int|
                    0 <= k < i ==> (#[trigger] self.cts@[k]).stores_sub(a.cts@[k], b.cts@[k]),
            decreases n - i,
        {
            let mut ct = LweCiphertext::allocate(self.lwe_size);
            ct.fill_with_sub(&a.cts[i], &b.cts[i]);
            self.cts.set(i, ct);
            i = i + 1;
        }
    }

    /// Fusing elementwise addition: adds every ciphertext of `other` onto
    /// the corresponding ciphertext of `self`, in place.
    pub fn update_with_add_vector(&mut self, other: &Self)
        requires
            old(self).wf(),
            other.wf(),
            old(self).lwe_size == other.lwe_size,
            old(self).cts@.len() == other.cts@.len(),
        ensures
            final(self).wf(),
            final(self).lwe_size == old(self).lwe_size,
            final(self).cts@.len() == old(self).cts@.len(),
            forall|i: int|
                0 <= i < old(self).cts@.len() ==> (#[trigger] final(self).cts@[i]).stores_add(
                    old(self).cts@[i],
                    other.cts@[i],
                ),
    {
        let n = self.cts.len();
        let mut i: usize = 0;
        while i < n
            invariant
                i <= n,
                self.cts@.len() == n,
                other.cts@.len() == n,
                old(self).cts@.len() == n,
                other.wf(),
                old(self).wf(),
                self.lwe_size == old(self).lwe_size,
                self.lwe_size == other.lwe_size,
                self.lwe_size.0 >= 1,
                forall|k: int| i <= k < n ==> self.cts@[k] == old(self).cts@[k],
                forall|k: int|
                    0 <= k < n ==> (#[trigger] self.cts@[k]).dim() == self.lwe_size.0 - 1,
                forall|k: int|
                    0 <= k < i ==> (#[trigger] self.cts@[k]).stores_add(
                        old(self).cts@[k],
                        other.cts@[k],
                    ),
            decreases n - i,
        {
            let mut ct = LweCiphertext::allocate(self.lwe_size);
            ct.fill_with_add(&self.cts[i], &other.cts[i]);
            self.cts.set(i, ct);
            i = i + 1;
        }
    }
}

/// The exact integer weighted sum of the `i`-th mask coefficients of the
/// first `j` ciphertexts against the cleartext weights.
pub open spec fn multisum_mask<T: TorusElement>(
    cts: Seq<LweCiphertext<T>>,
    ws: Seq<T>,
    j: int,
    i: int,
) -> int
    decreases j,
{
    if j <= 0 {
        0
    } else {
        multisum_mask(cts, ws, j - 1, i) + cts[j - 1].mask_int(i) * ws[j - 1].as_int()
    }
}

/// The exact integer weighted sum of the bodies of the first `j`
/// ciphertexts against the cleartext weights.
pub open spec fn multisum_body<T: TorusElement>(
    cts: Seq<LweCiphertext<T>>,
    ws: Seq<T>,
    j: int,
) -> int
    decreases j,
{
    if j <= 0 {
        0
    } else {
        multisum_body(cts, ws, j - 1) + cts[j - 1].body_int() * ws[j - 1].as_int()
    }
}

impl<T: TorusElement> LweCiphertext<T> {
    /// The discarding affine transform: overwrites `self` with the weighted
    /// sum of the ciphertexts of `inputs` against the cleartext `weights`,
    /// plus the plaintext `bias` on the body. The result encrypts the same
    /// affine combination of the encrypted values.
    pub fn fill_with_multisum_and_bias(
        &mut self,
        inputs: &LweCiphertextVector<T>,
        weights: &CleartextVector<T>,
        bias: &Plaintext<T>,
    )
        requires
            old(self).dim() == inputs.lwe_size.0 - 1,
            inputs.wf(),
            inputs.cts@.len() == weights.values@.len(),
        ensures
            final(self).dim() == old(self).dim(),
            forall|i: int|
                0 <= i < final(self).dim() ==> #[trigger] final(self).mask_int(i) == multisum_mask(
                    inputs.cts@,
                    weights.values@,
                    inputs.cts@.len() as int,
                    i,
                ) % T::modulus(),
            final(self).body_int() == (bias.0.as_int() + multisum_body(
                inputs.cts@,
                weights.values@,
                inputs.cts@.len() as int,
            )) % T::modulus(),
    {
        proof {
            T::lemma_modulus();
        }
        let n = self.mask.len();
        let count = inputs.cts.len();
        let mut i: usize = 0;
        while i < n
            invariant
                i <= n,
                self.mask@.len() == n,
                forall|k: int| 0 <= k < i ==> (#[trigger] self.mask@[k]).as_int() == 0,
            decreases n - i,
        {
            self.mask.set(i, T::zero());
            i = i + 1;
        }
        self.body = bias.0;
        proof {
            T::lemma_in_range(bias.0);
            lemma_small_mod(bias.0.as_int() as nat, T::modulus() as nat);
            lemma_small_mod(0, T::modulus() as nat);
        }
        let mut j: usize = 0;
        while j < count
            invariant
                j <= count,
                self.mask@.len() == n,
                inputs.wf(),
                inputs.lwe_size.0 - 1 == n,
                T::modulus() > 1,
                count == inputs.cts@.len(),
                count == weights.values@.len(),
                forall|k: int|
                    0 <= k < n ==> (#[trigger] self.mask@[k]).as_int() == multisum_mask(
                        inputs.cts@,
                        weights.values@,
                        j as int,
                        k,
                    ) % T::modulus(),
                self.body.as_int() == (bias.0.as_int() + multisum_body(
                    inputs.cts@,
                    weights.values@,
                    j as int,
                )) % T::modulus(),
            decreases count - j,
        {
            let ghost prev = *self;
            let mut term = LweCiphertext::allocate(LweSize(n + 1));
            let w = crate::plaintext::Cleartext(weights.values[j]);
            term.fill_with_cleartext_mul(&inputs.cts[j], &w);
            self.update_with_add(&term);
            proof {
                let m = T::modulus();
                let cts = inputs.cts@;
                let ws = weights.values@;
                assert forall|k: int| 0 <= k < n implies (#[trigger] self.mask@[k]).as_int()
                    == multisum_mask(cts, ws, j + 1 as int, k) % m by {
                    let s = multisum_mask(cts, ws, j as int, k);
                    let t = cts[j as int].mask_int(k) * ws[j as int].as_int();
                    assert(self.mask_int(k) == (prev.mask_int(k) + term.mask_int(k)) % m);
                    assert(term.mask_int(k) == t % m);
                    assert(prev.mask_int(k) == s % m);
                    vstd::arithmetic::div_mod::lemma_add_mod_noop(s, t, m);
                }
                let s = multisum_body(cts, ws, j as int);
                let t = cts[j as int].body_int() * ws[j as int].as_int();
                assert(term.body_int() == t % m);
                crate::torus::lemma_mod_add_left(bias.0.as_int() + s, t % m, m);
                vstd::arithmetic::div_mod::lemma_add_mod_noop_right(bias.0.as_int() + s, t, m);
            }
            j = j + 1;
        }
    }
}

} // verus!
