//! The LWE scheme: secret keys, ciphertexts, encryption and decryption, and
//! the homomorphic algebra on ciphertexts.
//!
//! An LWE ciphertext is a mask vector and a body. Its *phase* under a key is
//! the body minus the dot product of mask and key, modulo the torus: the
//! noisy plaintext the ciphertext stores. Decryption computes the phase
//! exactly; encryption guarantees that the phase lies within a bounded torus
//! distance of the encoded plaintext, the bound being six times the noise
//! spread realized from the requested variance.

use vstd::prelude::*;
use vstd::arithmetic::div_mod::{
    lemma_add_mod_noop_right,
    lemma_sub_mod_noop_right,
    lemma_small_mod,
};
use vstd::arithmetic::mul::lemma_mul_basics;
use crate::torus::{TorusElement, is_bit, torus_dist};
use crate::params::{LweDimension, LweSize};
use crate::plaintext::{Plaintext, Cleartext};
use crate::random::RandomSource;
use crate::noise::{Variance, noise_spread, spread_of_variance};

verus! {

/// The dot product of the first `n` entries of `mask` and `key`, as exact
/// integers.
pub open spec fn dot_key_prefix<T: TorusElement>(mask: Seq<T>, key: Seq<T>, n: int) -> int
    decreases n,
{
    if n <= 0 {
        0
    } else {
        dot_key_prefix(mask, key, n - 1) + mask[n - 1].as_int() * key[n - 1].as_int()
    }
}

/// A binary LWE secret key: a vector of bits, one per mask element.
#[derive(Clone, Debug)]
pub struct LweSecretKey<T: TorusElement> {
    pub coeffs: Vec<T>,
}

impl<T: TorusElement> LweSecretKey<T> {
    /// Every coefficient of the key is a bit.
    pub open spec fn wf(self) -> bool {
        forall|i: int|
            0 <= i < self.coeffs@.len() ==> is_bit((#[trigger] self.coeffs@[i]).as_int())
    }

    /// The dimension of the key: its coefficient count.
    pub fn lwe_dimension(&self) -> (r: LweDimension)
        ensures
            r.0 == self.coeffs@.len(),
    {
        LweDimension(self.coeffs.len())
    }

    /// Draws a fresh binary key of the given dimension.
    pub fn generate_binary(dimension: LweDimension, gen: &mut RandomSource) -> (r: Self)
        ensures
            r.coeffs@.len() == dimension.0,
            r.wf(),
    {
        let mut coeffs: Vec<T> = Vec::new();
        let mut i: usize = 0;
        while i < dimension.0
            invariant
                i <= dimension.0,
                coeffs@.len() == i,
                forall|j: int| 0 <= j < i ==> is_bit((#[trigger] coeffs@[j]).as_int()),
            decreases dimension.0 - i,
        {
            let b: T = gen.random_bit();
            coeffs.push(b);
            i = i + 1;
        }
        LweSecretKey { coeffs }
    }
}

/// An LWE ciphertext: a mask vector of one torus element per key
/// coefficient, and a body element.
#[derive(Clone, Debug)]
pub struct LweCiphertext<T: TorusElement> {
    pub mask: Vec<T>,
    pub body: T,
}

impl<T: TorusElement> LweCiphertext<T> {
    /// The dimension: the number of mask elements.
    pub open spec fn dim(self) -> int {
        self.mask@.len() as int
    }

    /// The integer stored by the `i`-th mask element.
    pub open spec fn mask_int(self, i: int) -> int {
        self.mask@[i].as_int()
    }

    /// The integer stored by the body.
    pub open spec fn body_int(self) -> int {
        self.body.as_int()
    }

    /// The phase of the ciphertext under `key`: body minus mask-key dot
    /// product, on the torus. This is the noisy plaintext the ciphertext
    /// stores.
    pub open spec fn phase(self, key: LweSecretKey<T>) -> int {
        (self.body_int() - dot_key_prefix(self.mask@, key.coeffs@, self.dim()))
            % T::modulus()
    }

    /// The dimension of the ciphertext.
    pub fn lwe_dimension(&self) -> (r: LweDimension)
        ensures
            r.0 == self.dim(),
    {
        LweDimension(self.mask.len())
    }

    /// The size of the ciphertext: dimension plus the body.
    pub fn lwe_size(&self) -> (r: LweSize)
        requires
            self.dim() < usize::MAX,
        ensures
            r.0 == self.dim() + 1,
    {
        LweSize(self.mask.len() + 1)
    }

    /// Allocates a ciphertext of the given size with every element zero.
    pub fn allocate(size: LweSize) -> (r: Self)
        requires
            size.0 >= 1,
        ensures
            r.dim() == size.0 - 1,
            forall|i: int| 0 <= i < r.dim() ==> #[trigger] r.mask_int(i) == 0,
            r.body_int() == 0,
    {
        let n = size.0 - 1;
        let mut mask: Vec<T> = Vec::new();
        let mut i: usize = 0;
        while i < n
            invariant
                i <= n,
                mask@.len() == i,
                forall|j: int| 0 <= j < i ==> (#[trigger] mask@[j]).as_int() == 0,
            decreases n - i,
        {
            mask.push(T::zero());
            i = i + 1;
        }
        LweCiphertext { mask, body: T::zero() }
    }

    /// A trivial encryption of `encoded`: zero mask, the plaintext itself as
    /// the body. It carries no noise and no secrecy; its phase under every
    /// key is exactly the plaintext.
    pub fn trivial_encrypt(size: LweSize, encoded: &Plaintext<T>) -> (r: Self)
        requires
            size.0 >= 1,
        ensures
            r.dim() == size.0 - 1,
            forall|i: int| 0 <= i < r.dim() ==> #[trigger] r.mask_int(i) == 0,
            r.body_int() == encoded.0.as_int(),
    {
        let mut r = Self::allocate(size);
        let ghost r0 = r;
        r.body = encoded.0;
        proof {
            assert forall|i: int| 0 <= i < r.dim() implies r.mask_int(i) == 0 by {
                assert(r.mask_int(i) == r0.mask_int(i));
            }
        }
        r
    }
}

impl<T: TorusElement> LweCiphertext<T> {
    /// `self` stores the coefficientwise modular sum of `a` and `b`.
    pub open spec fn stores_add(self, a: Self, b: Self) -> bool {
        &&& self.dim() == a.dim()
        &&& a.dim() == b.dim()
        &&& forall|i: int|
            0 <= i < self.dim() ==> #[trigger] self.mask_int(i) == (a.mask_int(i) + b.mask_int(
                i,
            )) % T::modulus()
        &&& self.body_int() == (a.body_int() + b.body_int()) % T::modulus()
    }

    /// `self` stores the coefficientwise modular difference of `a` and `b`.
    pub open spec fn stores_sub(self, a: Self, b: Self) -> bool {
        &&& self.dim() == a.dim()
        &&& a.dim() == b.dim()
        &&& forall|i: int|
            0 <= i < self.dim() ==> #[trigger] self.mask_int(i) == (a.mask_int(i) - b.mask_int(
                i,
            )) % T::modulus()
        &&& self.body_int() == (a.body_int() - b.body_int()) % T::modulus()
    }

    /// `self` stores the coefficientwise modular negation of `a`.
    pub open spec fn stores_opp(self, a: Self) -> bool {
        &&& self.dim() == a.dim()
        &&& forall|i: int|
            0 <= i < self.dim() ==> #[trigger] self.mask_int(i) == (0 - a.mask_int(i))
                % T::modulus()
        &&& self.body_int() == (0 - a.body_int()) % T::modulus()
    }

    /// `self` stores every coefficient of `a` scaled by the cleartext `c`,
    /// modulo the torus.
    pub open spec fn stores_cleartext_mul(self, a: Self, c: int) -> bool {
        &&& self.dim() == a.dim()
        &&& forall|i: int|
            0 <= i < self.dim() ==> #[trigger] self.mask_int(i) == (a.mask_int(i) * c)
                % T::modulus()
        &&& self.body_int() == (a.body_int() * c) % T::modulus()
    }

    /// `self` stores `a` with the plaintext `pt` added to the body; the mask
    /// is `a`'s, element for element.
    pub open spec fn stores_plaintext_add(self, a: Self, pt: int) -> bool {
        &&& self.mask@ == a.mask@
        &&& self.body_int() == (a.body_int() + pt) % T::modulus()
    }

    /// `self` stores `a` with the plaintext `pt` subtracted from the body;
    /// the mask is `a`'s, element for element.
    pub open spec fn stores_plaintext_sub(self, a: Self, pt: int) -> bool {
        &&& self.mask@ == a.mask@
        &&& self.body_int() == (a.body_int() - pt) % T::modulus()
    }

    /// Discarding addition: overwrites `self` with the sum of `a` and `b`.
    pub fn fill_with_add(&mut self, a: &Self, b: &Self)
        requires
            old(self).dim() == a.dim(),
            a.dim() == b.dim(),
        ensures
            final(self).stores_add(*a, *b),
    {
        let n = a.mask.len();
        let mut i: usize = 0;
        while i < n
            invariant
                i <= n,
                self.mask@.len() == n,
                a.dim() == n,
                b.dim() == n,
                forall|j: int|
                    0 <= j < i ==> (#[trigger] self.mask@[j]).as_int() == (a.mask_int(j)
                        + b.mask_int(j)) % T::modulus(),
            decreases n - i,
        {
            let v = a.mask[i].wadd(b.mask[i]);
            self.mask.set(i, v);
            i = i + 1;
        }
        self.body = a.body.wadd(b.body);
    }

    /// Discarding subtraction: overwrites `self` with `a` minus `b`.
    pub fn fill_with_sub(&mut self, a: &Self, b: &Self)
        requires
            old(self).dim() == a.dim(),
            a.dim() == b.dim(),
        ensures
            final(self).stores_sub(*a, *b),
    {
        let n = a.mask.len();
        let mut i: usize = 0;
        while i < n
            invariant
                i <= n,
                self.mask@.len() == n,
                a.dim() == n,
                b.dim() == n,
                forall|j: int|
                    0 <= j < i ==> (#[trigger] self.mask@[j]).as_int() == (a.mask_int(j)
                        - b.mask_int(j)) % T::modulus(),
            decreases n - i,
        {
            let v = a.mask[i].wsub(b.mask[i]);
            self.mask.set(i, v);
            i = i + 1;
        }
        self.body = a.body.wsub(b.body);
    }

    /// Discarding negation: overwrites `self` with the opposite of `a`.
    pub fn fill_with_opp(&mut self, a: &Self)
        requires
            old(self).dim() == a.dim(),
        ensures
            final(self).stores_opp(*a),
    {
        let n = a.mask.len();
        let mut i: usize = 0;
        while i < n
            invariant
                i <= n,
                self.mask@.len() == n,
                a.dim() == n,
                forall|j: int|
                    0 <= j < i ==> (#[trigger] self.mask@[j]).as_int() == (0 - a.mask_int(j))
                        % T::modulus(),
            decreases n - i,
        {
            let v = a.mask[i].wneg();
            self.mask.set(i, v);
            i = i + 1;
        }
        self.body = a.body.wneg();
    }

    /// Discarding cleartext multiplication: overwrites `self` with `a`
    /// scaled by `c`.
    pub fn fill_with_cleartext_mul(&mut self, a: &Self, c: &Cleartext<T>)
        requires
            old(self).dim() == a.dim(),
        ensures
            final(self).stores_cleartext_mul(*a, c.0.as_int()),
    {
        let n = a.mask.len();
        let mut i: usize = 0;
        while i < n
            invariant
                i <= n,
                self.mask@.len() == n,
                a.dim() == n,
                forall|j: int|
                    0 <= j < i ==> (#[trigger] self.mask@[j]).as_int() == (a.mask_int(j)
                        * c.0.as_int()) % T::modulus(),
            decreases n - i,
        {
            let v = a.mask[i].wmul(c.0);
            self.mask.set(i, v);
            i = i + 1;
        }
        self.body = a.body.wmul(c.0);
    }

    /// Fusing addition: adds `other` onto `self` in place.
    pub fn update_with_add(&mut self, other: &Self)
        requires
            old(self).dim() == other.dim(),
        ensures
            final(self).stores_add(*old(self), *other),
    {
        let n = self.mask.len();
        let mut i: usize = 0;
        while i < n
            invariant
                i <= n,
                self.mask@.len() == n,
                other.dim() == n,
                old(self).dim() == n,
                self.body == old(self).body,
                forall|j: int|
                    0 <= j < i ==> (#[trigger] self.mask@[j]).as_int() == (old(self).mask_int(j)
                        + other.mask_int(j)) % T::modulus(),
                forall|j: int| i <= j < n ==> self.mask@[j] == old(self).mask@[j],
            decreases n - i,
        {
            let v = self.mask[i].wadd(other.mask[i]);
            self.mask.set(i, v);
            i = i + 1;
        }
        self.body = self.body.wadd(other.body);
    }

    /// Fusing subtraction: subtracts `other` from `self` in place.
    pub fn update_with_sub(&mut self, other: &Self)
        requires
            old(self).dim() == other.dim(),
        ensures
            final(self).stores_sub(*old(self), *other),
    {
        let n = self.mask.len();
        let mut i: usize = 0;
        while i < n
            invariant
                i <= n,
                self.mask@.len() == n,
                other.dim() == n,
                old(self).dim() == n,
                self.body == old(self).body,
                forall|j: int|
                    0 <= j < i ==> (#[trigger] self.mask@[j]).as_int() == (old(self).mask_int(j)
                        - other.mask_int(j)) % T::modulus(),
                forall|j: int| i <= j < n ==> self.mask@[j] == old(self).mask@[j],
            decreases n - i,
        {
            let v = self.mask[i].wsub(other.mask[i]);
            self.mask.set(i, v);
            i = i + 1;
        }
        self.body = self.body.wsub(other.body);
    }

    /// Fusing negation: negates `self` in place.
    pub fn update_with_opp(&mut self)
        ensures
            final(self).stores_opp(*old(self)),
    {
        let n = self.mask.len();
        let mut i: usize = 0;
        while i < n
            invariant
                i <= n,
                self.mask@.len() == n,
                old(self).dim() == n,
                self.body == old(self).body,
                forall|j: int|
                    0 <= j < i ==> (#[trigger] self.mask@[j]).as_int() == (0 - old(self).mask_int(
                        j,
                    )) % T::modulus(),
                forall|j: int| i <= j < n ==> self.mask@[j] == old(self).mask@[j],
            decreases n - i,
        {
            let v = self.mask[i].wneg();
            self.mask.set(i, v);
            i = i + 1;
        }
        self.body = self.body.wneg();
    }

    /// Fusing cleartext multiplication: scales `self` by `c` in place.
    pub fn update_with_cleartext_mul(&mut self, c: &Cleartext<T>)
        ensures
            final(self).stores_cleartext_mul(*old(self), c.0.as_int()),
    {
        let n = self.mask.len();
        let mut i: usize = 0;
        while i < n
            invariant
                i <= n,
                self.mask@.len() == n,
                old(self).dim() == n,
                self.body == old(self).body,
                forall|j: int|
                    0 <= j < i ==> (#[trigger] self.mask@[j]).as_int() == (old(self).mask_int(j)
                        * c.0.as_int()) % T::modulus(),
                forall|j: int| i <= j < n ==> self.mask@[j] == old(self).mask@[j],
            decreases n - i,
        {
            let v = self.mask[i].wmul(c.0);
            self.mask.set(i, v);
            i = i + 1;
        }
        self.body = self.body.wmul(c.0);
    }

    /// Fusing plaintext addition: adds `pt` to the body in place; the mask
    /// is untouched, so the noise is unchanged.
    pub fn update_with_plaintext_add(&mut self, pt: &Plaintext<T>)
        ensures
            final(self).stores_plaintext_add(*old(self), pt.0.as_int()),
    {
        self.body = self.body.wadd(pt.0);
    }

    /// Fusing plaintext subtraction: subtracts `pt` from the body in place;
    /// the mask is untouched, so the noise is unchanged.
    pub fn update_with_plaintext_sub(&mut self, pt: &Plaintext<T>)
        ensures
            final(self).stores_plaintext_sub(*old(self), pt.0.as_int()),
    {
        self.body = self.body.wsub(pt.0);
    }

    /// Discarding plaintext addition: overwrites `self` with `a`, the body
    /// shifted by `pt`.
    pub fn fill_with_plaintext_add(&mut self, a: &Self, pt: &Plaintext<T>)
        requires
            old(self).dim() == a.dim(),
        ensures
            final(self).stores_plaintext_add(*a, pt.0.as_int()),
    {
        self.fill_with_copy(a);
        self.update_with_plaintext_add(pt);
    }

    /// Discarding plaintext subtraction: overwrites `self` with `a`, the
    /// body shifted by `pt`.
    pub fn fill_with_plaintext_sub(&mut self, a: &Self, pt: &Plaintext<T>)
        requires
            old(self).dim() == a.dim(),
        ensures
            final(self).stores_plaintext_sub(*a, pt.0.as_int()),
    {
        self.fill_with_copy(a);
        self.update_with_plaintext_sub(pt);
    }

    /// Overwrites `self` with a copy of `a`.
    pub fn fill_with_copy(&mut self, a: &Self)
        requires
            old(self).dim() == a.dim(),
        ensures
            final(self).mask@ == a.mask@,
            final(self).body == a.body,
    {
        let n = a.mask.len();
        let mut i: usize = 0;
        while i < n
            invariant
                i <= n,
                self.mask@.len() == n,
                a.dim() == n,
                forall|j: int| 0 <= j < i ==> self.mask@[j] == a.mask@[j],
            decreases n - i,
        {
            let v = a.mask[i];
            self.mask.set(i, v);
            i = i + 1;
        }
        self.body = a.body;
        proof {
            assert(self.mask@ =~= a.mask@);
        }
    }
}

/// Computes the dot product of a mask and a binary key on the torus:
/// the exact integer dot product, reduced modulo the torus.
fn mask_key_dot<T: TorusElement>(mask: &Vec<T>, key: &LweSecretKey<T>) -> (r: T)
    requires
        mask@.len() == key.coeffs@.len(),
        key.wf(),
    ensures
        r.as_int() == dot_key_prefix(mask@, key.coeffs@, mask@.len() as int) % T::modulus(),
{
    proof {
        T::lemma_modulus();
    }
    let mut acc = T::zero();
    let mut i: usize = 0;
    proof {
        lemma_small_mod(0, T::modulus() as nat);
    }
    while i < mask.len()
        invariant
            i <= mask@.len(),
            mask@.len() == key.coeffs@.len(),
            key.wf(),
            T::modulus() > 1,
            acc.as_int() == dot_key_prefix(mask@, key.coeffs@, i as int) % T::modulus(),
        decreases mask@.len() - i,
    {
        let m = mask[i];
        let k = key.coeffs[i];
        proof {
            T::lemma_in_range(m);
            lemma_mul_basics(m.as_int());
        }
        let one = T::one();
        if k.eq_el(one) {
            proof {
                let d = dot_key_prefix(mask@, key.coeffs@, i as int);
                crate::torus::lemma_mod_add_left(d, m.as_int(), T::modulus());
            }
            acc = acc.wadd(m);
        } else {
            proof {
                assert(k.as_int() == 0);
            }
        }
        i = i + 1;
    }
    acc
}

/// Relates the body computed by encryption to the phase of the resulting
/// ciphertext: the phase is plaintext plus error, so its offset from the
/// plaintext along the torus is exactly the error's offset from zero.
pub(crate) proof fn lemma_encrypt_phase(dotfull: int, dotm: int, pt: int, e: int, body: int, m: int)
    requires
        m > 1,
        dotm == dotfull % m,
        body == ((dotm + pt) % m + e) % m,
    ensures
        (body - dotfull - pt) % m == (e - 0) % m,
{
    let s = dotfull + pt + e;
    assert(body == (dotm + pt + e) % m) by {
        crate::torus::lemma_mod_add_left(dotm + pt, e, m);
    }
    assert(body == s % m) by {
        crate::torus::lemma_mod_add_left(dotfull, pt + e, m);
    }
    assert((body - (dotfull + pt)) % m == (s - (dotfull + pt)) % m) by {
        crate::torus::lemma_mod_sub_left(s, dotfull + pt, m);
        vstd::arithmetic::div_mod::lemma_mod_twice(s, m);
        crate::torus::lemma_mod_sub_left(s % m, dotfull + pt, m);
    }
    assert(s - (dotfull + pt) == e);
    assert(body - dotfull - pt == body - (dotfull + pt));
}

impl<T: TorusElement> LweSecretKey<T> {
    /// Encrypts `encoded` into `output`: draws a fresh uniform mask, then
    /// sets the body to mask-key dot product plus plaintext plus a bounded
    /// error term realizing the requested variance. The phase of the result
    /// lies within six noise spreads of the plaintext along the torus.
    pub fn encrypt_lwe(
        &self,
        output: &mut LweCiphertext<T>,
        encoded: &Plaintext<T>,
        noise: Variance,
        gen: &mut RandomSource,
    )
        requires
            self.wf(),
            old(output).dim() == self.coeffs@.len(),
            12 * noise_spread(noise, T::bits_spec()) < T::modulus(),
        ensures
            final(output).dim() == old(output).dim(),
            torus_dist(
                final(output).phase(*self),
                encoded.0.as_int(),
                T::modulus(),
            ) <= 6 * noise_spread(noise, T::bits_spec()),
    {
        proof {
            T::lemma_modulus();
        }
        let n = output.mask.len();
        let mut i: usize = 0;
        while i < n
            invariant
                i <= n,
                output.mask@.len() == n,
            decreases n - i,
        {
            let w: T = gen.random_torus();
            output.mask.set(i, w);
            i = i + 1;
        }
        let dot = mask_key_dot(&output.mask, self);
        let width = T::bits();
        let spread = spread_of_variance(noise, width);
        let e: T = gen.sample_error(spread);
        output.body = dot.wadd(encoded.0).wadd(e);
        proof {
            let m = T::modulus();
            let pt = encoded.0.as_int();
            let dotfull = dot_key_prefix(output.mask@, self.coeffs@, n as int);
            lemma_encrypt_phase(dotfull, dot.as_int(), pt, e.as_int(), output.body.as_int(), m);
            assert((output.phase(*self) - pt) % m == (output.body_int() - dotfull - pt) % m) by {
                crate::torus::lemma_mod_sub_left(output.body_int() - dotfull, pt, m);
            }
            T::lemma_in_range(e);
            lemma_small_mod(e.as_int() as nat, m as nat);
            assert((output.phase(*self) - pt) % m == (e.as_int() - 0) % m);
        }
    }

    /// Decrypts a ciphertext: returns exactly its phase under this key. The
    /// result is the plaintext plus the accumulated error; recovering the
    /// encoded value within its precision is the caller's rounding step, and
    /// succeeds whenever the error is small enough.
    pub fn decrypt_lwe(&self, ct: &LweCiphertext<T>) -> (r: Plaintext<T>)
        requires
            self.wf(),
            ct.dim() == self.coeffs@.len(),
        ensures
            r.0.as_int() == ct.phase(*self),
    {
        proof {
            T::lemma_modulus();
        }
        let dot = mask_key_dot(&ct.mask, self);
        let r = ct.body.wsub(dot);
        proof {
            lemma_sub_mod_noop_right(
                ct.body_int(),
                dot_key_prefix(ct.mask@, self.coeffs@, ct.dim()),
                T::modulus(),
            );
        }
        Plaintext(r)
    }
}

/// A mask of zeros contributes nothing to the dot product.
proof fn lemma_dot_zero_mask<T: TorusElement>(mask: Seq<T>, key: Seq<T>, n: int)
    requires
        n <= mask.len(),
        n <= key.len(),
        forall|i: int| 0 <= i < n ==> (#[trigger] mask[i]).as_int() == 0,
    ensures
        dot_key_prefix(mask, key, n) == 0,
    decreases n,
{
    if n > 0 {
        lemma_dot_zero_mask(mask, key, n - 1);
        lemma_mul_basics(key[n - 1].as_int());
    }
}

/// Dot products against a binary key distribute over coefficientwise modular
/// sums: reducing each coefficient of the summed mask does not change the
/// dot product modulo the torus.
proof fn lemma_dot_mod_add<T: TorusElement>(c3: Seq<T>, c1: Seq<T>, c2: Seq<T>, key: Seq<T>, n: int)
    requires
        n <= c1.len(),
        n <= c2.len(),
        n <= c3.len(),
        n <= key.len(),
        forall|i: int|
            0 <= i < n ==> (#[trigger] c3[i]).as_int() == (c1[i].as_int() + c2[i].as_int())
                % T::modulus(),
        forall|i: int| 0 <= i < n ==> is_bit((#[trigger] key[i]).as_int()),
    ensures
        dot_key_prefix(c3, key, n) % T::modulus() == (dot_key_prefix(c1, key, n)
            + dot_key_prefix(c2, key, n)) % T::modulus(),
    decreases n,
{
    T::lemma_modulus();
    let m = T::modulus();
    if n <= 0 {
        lemma_small_mod(0, m as nat);
    } else {
        lemma_dot_mod_add(c3, c1, c2, key, n - 1);
        let k = key[n - 1].as_int();
        let a1 = c1[n - 1].as_int();
        let a2 = c2[n - 1].as_int();
        let a3 = c3[n - 1].as_int();
        let d1 = dot_key_prefix(c1, key, n - 1);
        let d2 = dot_key_prefix(c2, key, n - 1);
        let d3 = dot_key_prefix(c3, key, n - 1);
        lemma_mul_basics(a1);
        lemma_mul_basics(a2);
        lemma_mul_basics(a3);
        if k == 0 {
            assert(a1 * k == 0 && a2 * k == 0 && a3 * k == 0);
        } else {
            assert(a1 * k == a1 && a2 * k == a2 && a3 * k == a3);
            lemma_add_mod_noop_right(d3, a1 + a2, m);
            crate::torus::lemma_mod_add_left(d3, a1 + a2, m);
            crate::torus::lemma_mod_add_left(d1 + d2, a1 + a2, m);
        }
    }
}

/// Dot products against a binary key distribute over coefficientwise modular
/// differences.
proof fn lemma_dot_mod_sub<T: TorusElement>(c3: Seq<T>, c1: Seq<T>, c2: Seq<T>, key: Seq<T>, n: int)
    requires
        n <= c1.len(),
        n <= c2.len(),
        n <= c3.len(),
        n <= key.len(),
        forall|i: int|
            0 <= i < n ==> (#[trigger] c3[i]).as_int() == (c1[i].as_int() - c2[i].as_int())
                % T::modulus(),
        forall|i: int| 0 <= i < n ==> is_bit((#[trigger] key[i]).as_int()),
    ensures
        dot_key_prefix(c3, key, n) % T::modulus() == (dot_key_prefix(c1, key, n)
            - dot_key_prefix(c2, key, n)) % T::modulus(),
    decreases n,
{
    T::lemma_modulus();
    let m = T::modulus();
    if n <= 0 {
        lemma_small_mod(0, m as nat);
    } else {
        lemma_dot_mod_sub(c3, c1, c2, key, n - 1);
        let k = key[n - 1].as_int();
        let a1 = c1[n - 1].as_int();
        let a2 = c2[n - 1].as_int();
        let a3 = c3[n - 1].as_int();
        let d1 = dot_key_prefix(c1, key, n - 1);
        let d2 = dot_key_prefix(c2, key, n - 1);
        let d3 = dot_key_prefix(c3, key, n - 1);
        lemma_mul_basics(a1);
        lemma_mul_basics(a2);
        lemma_mul_basics(a3);
        if k == 0 {
            assert(a1 * k == 0 && a2 * k == 0 && a3 * k == 0);
        } else {
            assert(a1 * k == a1 && a2 * k == a2 && a3 * k == a3);
            lemma_add_mod_noop_right(d3, a1 - a2, m);
            crate::torus::lemma_mod_add_left(d3, a1 - a2, m);
            crate::torus::lemma_mod_add_left(d1 - d2, a1 - a2, m);
        }
    }
}

/// Additive homomorphism: the phase of a ciphertext that stores the sum of
/// two ciphertexts is the modular sum of their phases. Decrypting a
/// discarding or fusing addition therefore recovers the sum of the encrypted
/// values, up to the two ciphertexts' accumulated error terms.
pub proof fn lemma_add_homomorphism<T: TorusElement>(
    c3: LweCiphertext<T>,
    c1: LweCiphertext<T>,
    c2: LweCiphertext<T>,
    key: LweSecretKey<T>,
)
    requires
        key.wf(),
        c1.dim() == key.coeffs@.len(),
        c3.stores_add(c1, c2),
    ensures
        c3.phase(key) == (c1.phase(key) + c2.phase(key)) % T::modulus(),
{
    T::lemma_modulus();
    let m = T::modulus();
    let n = c1.dim();
    assert forall|i: int| 0 <= i < n implies (#[trigger] c3.mask@[i]).as_int() == (
    c1.mask@[i].as_int() + c2.mask@[i].as_int()) % m by {
        assert(c3.mask_int(i) == (c1.mask_int(i) + c2.mask_int(i)) % m);
    }
    lemma_dot_mod_add(c3.mask@, c1.mask@, c2.mask@, key.coeffs@, n);
    let d1 = dot_key_prefix(c1.mask@, key.coeffs@, n);
    let d2 = dot_key_prefix(c2.mask@, key.coeffs@, n);
    let d3 = dot_key_prefix(c3.mask@, key.coeffs@, n);
    let b1 = c1.body_int();
    let b2 = c2.body_int();
    assert(c3.phase(key) == (b1 + b2 - d1 - d2) % m) by {
        crate::torus::lemma_mod_sub_left(b1 + b2, d3, m);
        lemma_sub_mod_noop_right(b1 + b2, d3, m);
        lemma_sub_mod_noop_right(b1 + b2, d1 + d2, m);
    }
    assert((c1.phase(key) + c2.phase(key)) % m == (b1 + b2 - d1 - d2) % m) by {
        vstd::arithmetic::div_mod::lemma_add_mod_noop(b1 - d1, b2 - d2, m);
    }
}

/// Subtractive homomorphism: the phase of a ciphertext that stores the
/// difference of two ciphertexts is the modular difference of their phases.
pub proof fn lemma_sub_homomorphism<T: TorusElement>(
    c3: LweCiphertext<T>,
    c1: LweCiphertext<T>,
    c2: LweCiphertext<T>,
    key: LweSecretKey<T>,
)
    requires
        key.wf(),
        c1.dim() == key.coeffs@.len(),
        c3.stores_sub(c1, c2),
    ensures
        c3.phase(key) == (c1.phase(key) - c2.phase(key)) % T::modulus(),
{
    T::lemma_modulus();
    let m = T::modulus();
    let n = c1.dim();
    assert forall|i: int| 0 <= i < n implies (#[trigger] c3.mask@[i]).as_int() == (
    c1.mask@[i].as_int() - c2.mask@[i].as_int()) % m by {
        assert(c3.mask_int(i) == (c1.mask_int(i) - c2.mask_int(i)) % m);
    }
    lemma_dot_mod_sub(c3.mask@, c1.mask@, c2.mask@, key.coeffs@, n);
    let d1 = dot_key_prefix(c1.mask@, key.coeffs@, n);
    let d2 = dot_key_prefix(c2.mask@, key.coeffs@, n);
    let d3 = dot_key_prefix(c3.mask@, key.coeffs@, n);
    let b1 = c1.body_int();
    let b2 = c2.body_int();
    assert(c3.phase(key) == (b1 - b2 - d1 + d2) % m) by {
        crate::torus::lemma_mod_sub_left(b1 - b2, d3, m);
        lemma_sub_mod_noop_right(b1 - b2, d3, m);
        lemma_sub_mod_noop_right(b1 - b2, d1 - d2, m);
    }
    assert((c1.phase(key) - c2.phase(key)) % m == (b1 - b2 - d1 + d2) % m) by {
        vstd::arithmetic::div_mod::lemma_sub_mod_noop(b1 - d1, b2 - d2, m);
    }
}

/// Trivial-encryption exactness: the phase of a ciphertext with an all-zero
/// mask is exactly its body under every key, with no error term at all.
/// Decrypting a trivial encryption recovers the encoded value exactly.
pub proof fn lemma_trivial_encryption_exact<T: TorusElement>(
    ct: LweCiphertext<T>,
    key: LweSecretKey<T>,
)
    requires
        key.wf(),
        ct.dim() == key.coeffs@.len(),
        forall|i: int| 0 <= i < ct.dim() ==> #[trigger] ct.mask_int(i) == 0,
    ensures
        ct.phase(key) == ct.body_int(),
{
    T::lemma_modulus();
    assert forall|i: int| 0 <= i < ct.dim() implies (#[trigger] ct.mask@[i]).as_int() == 0 by {
        assert(ct.mask_int(i) == 0);
    }
    lemma_dot_zero_mask(ct.mask@, key.coeffs@, ct.dim());
    T::lemma_in_range(ct.body);
    lemma_small_mod(ct.body_int() as nat, T::modulus() as nat);
}

/// Fusing/discarding equivalence: two ciphertexts that store the sum of the
/// same pair of ciphertexts are identical, element for element. The fusing
/// and discarding additions therefore produce the same bits.
pub proof fn lemma_fusing_discarding_add_agree<T: TorusElement>(
    d: LweCiphertext<T>,
    f: LweCiphertext<T>,
    a: LweCiphertext<T>,
    b: LweCiphertext<T>,
)
    requires
        d.stores_add(a, b),
        f.stores_add(a, b),
    ensures
        d.mask@ == f.mask@,
        d.body == f.body,
{
    assert forall|i: int| 0 <= i < d.mask@.len() implies d.mask@[i] == f.mask@[i] by {
        assert(d.mask_int(i) == f.mask_int(i));
        T::lemma_injective(d.mask@[i], f.mask@[i]);
    }
    assert(d.mask@ =~= f.mask@);
    T::lemma_injective(d.body, f.body);
}

} // verus!
