//! The GLWE scheme: LWE generalized to polynomial-ring coefficients. A GLWE
//! ciphertext is a vector of mask polynomials and a body polynomial; its
//! phase under a key subtracts the negacyclic mask-key products from the
//! body, one torus coefficient at a time.

use vstd::prelude::*;
use vstd::arithmetic::div_mod::{lemma_add_mod_noop, lemma_sub_mod_noop_right, lemma_small_mod};
use crate::torus::{TorusElement, is_bit, torus_dist};
use crate::params::{GlweDimension, GlweSize, PolynomialSize, CiphertextCount};
use crate::plaintext::PlaintextList;
use crate::polynomial::{Polynomial, negacyclic_prefix};
use crate::random::RandomSource;
use crate::noise::{Variance, noise_spread, spread_of_variance};
use crate::seeders::Seed;
use crate::lwe::lemma_encrypt_phase;

verus! {

/// A GLWE secret key: a vector of polynomials over the torus. Freshly drawn
/// keys are binary; keys produced by a tensor product are not.
#[derive(Clone, Debug)]
pub struct GlweSecretKey<T: TorusElement> {
    pub polys: Vec<Polynomial<T>>,
    pub poly_size: PolynomialSize,
}

impl<T: TorusElement> GlweSecretKey<T> {
    /// Every polynomial of the key has the declared size.
    pub open spec fn wf(self) -> bool {
        &&& self.poly_size.0 >= 1
        &&& forall|i: int|
            0 <= i < self.polys@.len() ==> (#[trigger] self.polys@[i]).len() == self.poly_size.0
    }

    /// Every coefficient of every polynomial is a bit.
    pub open spec fn is_binary(self) -> bool {
        forall|i: int, c: int|
            0 <= i < self.polys@.len() && 0 <= c < self.polys@[i].len() ==> is_bit(
                #[trigger] self.polys@[i].coef_int(c),
            )
    }

    /// The dimension of the key: its polynomial count.
    pub fn glwe_dimension(&self) -> (r: GlweDimension)
        ensures
            r.0 == self.polys@.len(),
    {
        GlweDimension(self.polys.len())
    }

    /// The degree bound of the key's polynomials.
    pub fn polynomial_size(&self) -> (r: PolynomialSize)
        ensures
            r == self.poly_size,
    {
        self.poly_size
    }

    /// Wraps a polynomial list as a key, as the tensor product does for its
    /// output.
    pub fn from_polynomial_list(polys: Vec<Polynomial<T>>, poly_size: PolynomialSize) -> (r: Self)
        ensures
            r.polys@ == polys@,
            r.poly_size == poly_size,
    {
        GlweSecretKey { polys, poly_size }
    }

    /// Draws a fresh binary key of the given dimension and polynomial size.
    pub fn generate_binary(
        dimension: GlweDimension,
        poly_size: PolynomialSize,
        gen: &mut RandomSource,
    ) -> (r: Self)
        requires
            poly_size.0 >= 1,
        ensures
            r.wf(),
            r.is_binary(),
            r.polys@.len() == dimension.0,
            r.poly_size == poly_size,
    {
        let mut polys: Vec<Polynomial<T>> = Vec::new();
        let mut i: usize = 0;
        while i < dimension.0
            invariant
                i <= dimension.0,
                polys@.len() == i,
                poly_size.0 >= 1,
                forall|k: int| 0 <= k < i ==> (#[trigger] polys@[k]).len() == poly_size.0,
                forall|k: int, c: int|
                    0 <= k < i && 0 <= c < polys@[k].len() ==> is_bit(
                        #[trigger] polys@[k].coef_int(c),
                    ),
            decreases dimension.0 - i,
        {
            let mut coefs: Vec<T> = Vec::new();
            let mut c: usize = 0;
            while c < poly_size.0
                invariant
                    c <= poly_size.0,
                    coefs@.len() == c,
                    forall|l: int| 0 <= l < c ==> is_bit((#[trigger] coefs@[l]).as_int()),
                decreases poly_size.0 - c,
            {
                let b: T = gen.random_bit();
                coefs.push(b);
                c = c + 1;
            }
            polys.push(Polynomial::from_container(coefs));
            i = i + 1;
        }
        GlweSecretKey { polys, poly_size }
    }
}

/// A GLWE ciphertext: mask polynomials, one per key polynomial, and a body
/// polynomial of the same size.
#[derive(Clone, Debug)]
pub struct GlweCiphertext<T: TorusElement> {
    pub mask: Vec<Polynomial<T>>,
    pub body: Polynomial<T>,
}

/// The sum over the first `t` mask/key polynomial pairs of the exact
/// negacyclic product, at output coefficient `j`.
pub open spec fn glwe_dot_prefix<T: TorusElement>(
    mask: Seq<Polynomial<T>>,
    key: Seq<Polynomial<T>>,
    n: int,
    j: int,
    t: int,
) -> int
    decreases t,
{
    if t <= 0 {
        0
    } else {
        glwe_dot_prefix(mask, key, n, j, t - 1) + negacyclic_prefix(
            mask[t - 1].coefs@,
            key[t - 1].coefs@,
            n,
            j,
            n,
        )
    }
}

impl<T: TorusElement> GlweCiphertext<T> {
    /// Every mask polynomial has the body's size.
    pub open spec fn wf(self) -> bool {
        &&& self.body.len() >= 1
        &&& forall|i: int|
            0 <= i < self.mask@.len() ==> (#[trigger] self.mask@[i]).len() == self.body.len()
    }

    /// The dimension: the number of mask polynomials.
    pub open spec fn dim(self) -> int {
        self.mask@.len() as int
    }

    /// The phase at coefficient `j` under `key`: body coefficient minus the
    /// summed negacyclic mask-key products, on the torus.
    pub open spec fn phase(self, key: GlweSecretKey<T>, j: int) -> int {
        (self.body.coef_int(j) - glwe_dot_prefix(
            self.mask@,
            key.polys@,
            self.body.len(),
            j,
            self.dim(),
        )) % T::modulus()
    }

    /// The dimension of the ciphertext.
    pub fn glwe_dimension(&self) -> (r: GlweDimension)
        ensures
            r.0 == self.dim(),
    {
        GlweDimension(self.mask.len())
    }

    /// The degree bound of the ciphertext's polynomials.
    pub fn polynomial_size(&self) -> (r: PolynomialSize)
        ensures
            r.0 == self.body.len(),
    {
        PolynomialSize(self.body.coefs.len())
    }

    /// Allocates an all-zero ciphertext of the given shape.
    pub fn allocate(poly_size: PolynomialSize, glwe_size: GlweSize) -> (r: Self)
        requires
            glwe_size.0 >= 1,
            poly_size.0 >= 1,
        ensures
            r.wf(),
            r.dim() == glwe_size.0 - 1,
            r.body.len() == poly_size.0,
            forall|i: int, j: int|
                0 <= i < r.dim() && 0 <= j < poly_size.0 ==> #[trigger] r.mask@[i].coef_int(j)
                    == 0,
            forall|j: int| 0 <= j < poly_size.0 ==> #[trigger] r.body.coef_int(j) == 0,
    {
        let k = glwe_size.0 - 1;
        let mut mask: Vec<Polynomial<T>> = Vec::new();
        let mut i: usize = 0;
        while i < k
            invariant
                i <= k,
                mask@.len() == i,
                forall|l: int| 0 <= l < i ==> (#[trigger] mask@[l]).len() == poly_size.0,
                forall|l: int, j: int|
                    0 <= l < i && 0 <= j < poly_size.0 ==> #[trigger] mask@[l].coef_int(j) == 0,
            decreases k - i,
        {
            mask.push(Polynomial::allocate(poly_size));
            i = i + 1;
        }
        GlweCiphertext { mask, body: Polynomial::allocate(poly_size) }
    }

    /// A trivial encryption of a plaintext list: zero mask polynomials, the
    /// plaintexts themselves as the body. Its phase at every coefficient
    /// under every key is exactly the corresponding plaintext.
    pub fn trivial_encrypt(
        poly_size: PolynomialSize,
        glwe_size: GlweSize,
        encoded: &PlaintextList<T>,
    ) -> (r: Self)
        requires
            glwe_size.0 >= 1,
            poly_size.0 >= 1,
            encoded.coefs@.len() == poly_size.0,
        ensures
            r.wf(),
            r.dim() == glwe_size.0 - 1,
            r.body.len() == poly_size.0,
            forall|i: int, j: int|
                0 <= i < r.dim() && 0 <= j < poly_size.0 ==> #[trigger] r.mask@[i].coef_int(j)
                    == 0,
            forall|j: int|
                0 <= j < poly_size.0 ==> #[trigger] r.body.coef_int(j) == encoded.coefs@[
                    j
                ].as_int(),
    {
        let mut r = Self::allocate(poly_size, glwe_size);
        let ghost r0 = r;
        let mut body: Vec<T> = Vec::new();
        let mut j: usize = 0;
        while j < poly_size.0
            invariant
                j <= poly_size.0,
                body@.len() == j,
                encoded.coefs@.len() == poly_size.0,
                forall|l: int| 0 <= l < j ==> body@[l] == encoded.coefs@[l],
            decreases poly_size.0 - j,
        {
            let v = encoded.coefs[j];
            body.push(v);
            j = j + 1;
        }
        r.body = Polynomial::from_container(body);
        proof {
            assert forall|i: int, j2: int| 0 <= i < r.dim() && 0 <= j2 < poly_size.0 implies #[trigger] r.mask@[i].coef_int(
                j2,
            ) == 0 by {
                assert(r0.mask@[i].coef_int(j2) == 0);
            }
        }
        r
    }
}

/// Computes the summed negacyclic products of the mask and key polynomials:
/// one accumulator polynomial whose coefficient `j` stores the full dot
/// product at `j`, reduced modulo the torus.
fn glwe_mask_key_dot<T: TorusElement>(
    mask: &Vec<Polynomial<T>>,
    key: &GlweSecretKey<T>,
    poly_size: PolynomialSize,
) -> (r: Polynomial<T>)
    requires
        key.wf(),
        key.poly_size == poly_size,
        mask@.len() == key.polys@.len(),
        forall|i: int| 0 <= i < mask@.len() ==> (#[trigger] mask@[i]).len() == poly_size.0,
    ensures
        r.len() == poly_size.0,
        forall|j: int|
            0 <= j < poly_size.0 ==> #[trigger] r.coef_int(j) == glwe_dot_prefix(
                mask@,
                key.polys@,
                poly_size.0 as int,
                j,
                mask@.len() as int,
            ) % T::modulus(),
    decreases mask@.len(),
{
    proof {
        T::lemma_modulus();
    }
    let n = poly_size.0;
    let k = mask.len();
    let mut acc = Polynomial::allocate(poly_size);
    proof {
        lemma_small_mod(0, T::modulus() as nat);
    }
    let mut i: usize = 0;
    let mut tmp = Polynomial::allocate(poly_size);
    while i < k
        invariant
            i <= k,
            n == poly_size.0,
            n >= 1,
            T::modulus() > 1,
            key.wf(),
            key.poly_size == poly_size,
            mask@.len() == k,
            key.polys@.len() == k,
            acc.len() == n,
            tmp.len() == n,
            forall|l: int| 0 <= l < k ==> (#[trigger] mask@[l]).len() == n,
            forall|j: int|
                0 <= j < n ==> #[trigger] acc.coef_int(j) == glwe_dot_prefix(
                    mask@,
                    key.polys@,
                    n as int,
                    j,
                    i as int,
                ) % T::modulus(),
        decreases k - i,
    {
        let ghost accp = acc;
        tmp.fill_with_negacyclic_mul(&mask[i], &key.polys[i]);
        acc.update_with_add(&tmp);
        proof {
            let m = T::modulus();
            assert forall|j: int| 0 <= j < n implies #[trigger] acc.coef_int(j) == glwe_dot_prefix(
                mask@,
                key.polys@,
                n as int,
                j,
                i + 1 as int,
            ) % m by {
                let s = glwe_dot_prefix(mask@, key.polys@, n as int, j, i as int);
                let p = negacyclic_prefix(
                    mask@[i as int].coefs@,
                    key.polys@[i as int].coefs@,
                    n as int,
                    j,
                    n as int,
                );
                assert(tmp.coef_int(j) == p % m);
                assert(accp.coef_int(j) == s % m);
                assert(acc.coef_int(j) == (accp.coef_int(j) + tmp.coef_int(j)) % m);
                lemma_add_mod_noop(s, p, m);
            }
        }
        i = i + 1;
    }
    acc
}

impl<T: TorusElement> GlweSecretKey<T> {
    /// Decrypts a GLWE ciphertext into a plaintext list: returns exactly the
    /// ciphertext's phase at every coefficient. The result is plaintext plus
    /// accumulated error; rounding to the encoding is the caller's step.
    pub fn decrypt_glwe(&self, decrypted: &mut PlaintextList<T>, ct: &GlweCiphertext<T>)
        requires
            self.wf(),
            ct.wf(),
            ct.dim() == self.polys@.len(),
            ct.body.len() == self.poly_size.0,
            old(decrypted).coefs@.len() == self.poly_size.0,
        ensures
            final(decrypted).coefs@.len() == self.poly_size.0,
            forall|j: int|
                0 <= j < self.poly_size.0 ==> (#[trigger] final(decrypted).coefs@[j]).as_int()
                    == ct.phase(*self, j),
    {
        proof {
            T::lemma_modulus();
        }
        let n = self.poly_size.0;
        let dot = glwe_mask_key_dot(&ct.mask, self, self.poly_size);
        let mut j: usize = 0;
        while j < n
            invariant
                j <= n,
                decrypted.coefs@.len() == n,
                ct.body.len() == n,
                dot.len() == n,
                T::modulus() > 1,
                ct.dim() == self.polys@.len(),
                forall|l: int|
                    0 <= l < n ==> #[trigger] dot.coef_int(l) == glwe_dot_prefix(
                        ct.mask@,
                        self.polys@,
                        n as int,
                        l,
                        ct.dim(),
                    ) % T::modulus(),
                forall|l: int|
                    0 <= l < j ==> (#[trigger] decrypted.coefs@[l]).as_int() == ct.phase(
                        *self,
                        l,
                    ),
            decreases n - j,
        {
            let v = ct.body.coefs[j].wsub(dot.coefs[j]);
            let ghost prev = *decrypted;
            proof {
                lemma_sub_mod_noop_right(
                    ct.body.coef_int(j as int),
                    glwe_dot_prefix(ct.mask@, self.polys@, n as int, j as int, ct.dim()),
                    T::modulus(),
                );
            }
            decrypted.coefs.set(j, v);
            proof {
                assert forall|l: int| 0 <= l < j + 1 implies (#[trigger] decrypted.coefs@[
                l]).as_int() == ct.phase(*self, l) by {
                    if l < j as int {
                        assert(decrypted.coefs@[l] == prev.coefs@[l]);
                    } else {
                        assert(decrypted.coefs@[l] == v);
                        assert(ct.body.len() == n as int);
                        let dfull = glwe_dot_prefix(ct.mask@, self.polys@, n as int, l, ct.dim());
                        assert(dot.coef_int(l) == dfull % T::modulus());
                        assert(v.as_int() == (ct.body.coef_int(l) - dot.coef_int(l))
                            % T::modulus());
                        lemma_sub_mod_noop_right(ct.body.coef_int(l), dfull, T::modulus());
                    }
                }
            }
            j = j + 1;
        }
    }

    /// Encrypts a plaintext list into `output`: draws fresh uniform mask
    /// polynomials, then sets every body coefficient to the mask-key dot
    /// product plus plaintext plus a bounded error term realizing the
    /// requested variance. Every phase coefficient lies within six noise
    /// spreads of its plaintext along the torus.
    pub fn encrypt_glwe(
        &self,
        output: &mut GlweCiphertext<T>,
        encoded: &PlaintextList<T>,
        noise: Variance,
        gen: &mut RandomSource,
    )
        requires
            self.wf(),
            old(output).wf(),
            old(output).dim() == self.polys@.len(),
            old(output).body.len() == self.poly_size.0,
            encoded.coefs@.len() == self.poly_size.0,
            12 * noise_spread(noise, T::bits_spec()) < T::modulus(),
        ensures
            final(output).wf(),
            final(output).dim() == old(output).dim(),
            final(output).body.len() == old(output).body.len(),
            forall|j: int|
                0 <= j < self.poly_size.0 ==> torus_dist(
                    final(output).phase(*self, j),
                    encoded.coefs@[j].as_int(),
                    T::modulus(),
                ) <= 6 * noise_spread(noise, T::bits_spec()),
    {
        proof {
            T::lemma_modulus();
        }
        let n = self.poly_size.0;
        let k = output.mask.len();
        let new_mask = draw_mask_polys::<T>(gen, k, self.poly_size);
        output.mask = new_mask;
        let dot = glwe_mask_key_dot(&output.mask, self, self.poly_size);
        let width = T::bits();
        let spread = spread_of_variance(noise, width);
        let mut body: Vec<T> = Vec::new();
        let mut j: usize = 0;
        while j < n
            invariant
                j <= n,
                body@.len() == j,
                n == self.poly_size.0,
                n >= 1,
                dot.len() == n,
                encoded.coefs@.len() == n,
                T::modulus() > 1,
                output.mask@.len() == k,
                forall|l: int| 0 <= l < k ==> (#[trigger] output.mask@[l]).len() == n,
                spread as int == noise_spread(noise, T::bits_spec()),
                12 * noise_spread(noise, T::bits_spec()) < T::modulus(),
                forall|l: int|
                    0 <= l < n ==> #[trigger] dot.coef_int(l) == glwe_dot_prefix(
                        output.mask@,
                        self.polys@,
                        n as int,
                        l,
                        k as int,
                    ) % T::modulus(),
                forall|l: int|
                    0 <= l < j ==> torus_dist(
                        ((#[trigger] body@[l]).as_int() - glwe_dot_prefix(
                            output.mask@,
                            self.polys@,
                            n as int,
                            l,
                            k as int,
                        )) % T::modulus(),
                        encoded.coefs@[l].as_int(),
                        T::modulus(),
                    ) <= 6 * (spread as int),
            decreases n - j,
        {
            let e: T = gen.sample_error(spread);
            let v = dot.coefs[j].wadd(encoded.coefs[j]).wadd(e);
            body.push(v);
            proof {
                let m = T::modulus();
                let pt = encoded.coefs@[j as int].as_int();
                let dfull = glwe_dot_prefix(output.mask@, self.polys@, n as int, j as int, k as int);
                lemma_encrypt_phase(
                    dfull,
                    dot.coef_int(j as int),
                    pt,
                    e.as_int(),
                    v.as_int(),
                    m,
                );
                crate::torus::lemma_mod_sub_left(v.as_int() - dfull, pt, m);
                T::lemma_in_range(e);
                lemma_small_mod(e.as_int() as nat, m as nat);
            }
            j = j + 1;
        }
        output.body = Polynomial::from_container(body);
    }
}

/// A list of GLWE ciphertexts sharing one shape.
#[derive(Clone, Debug)]
pub struct GlweList<T: TorusElement> {
    pub cts: Vec<GlweCiphertext<T>>,
    pub glwe_dimension: GlweDimension,
    pub poly_size: PolynomialSize,
}

impl<T: TorusElement> GlweList<T> {
    /// Every ciphertext of the list has the shared shape.
    pub open spec fn wf(self) -> bool {
        &&& self.poly_size.0 >= 1
        &&& forall|i: int|
            0 <= i < self.cts@.len() ==> (#[trigger] self.cts@[i]).wf() && self.cts@[i].dim()
                == self.glwe_dimension.0 && self.cts@[i].body.len() == self.poly_size.0
    }

    /// The number of ciphertexts of the list.
    pub fn ciphertext_count(&self) -> (r: CiphertextCount)
        ensures
            r.0 == self.cts@.len(),
    {
        CiphertextCount(self.cts.len())
    }

    /// Allocates a list of `count` all-zero ciphertexts.
    pub fn allocate(
        poly_size: PolynomialSize,
        dimension: GlweDimension,
        count: CiphertextCount,
    ) -> (r: Self)
        requires
            poly_size.0 >= 1,
            dimension.0 < usize::MAX,
        ensures
            r.wf(),
            r.cts@.len() == count.0,
            r.glwe_dimension == dimension,
            r.poly_size == poly_size,
    {
        let glwe_size = dimension.to_glwe_size();
        let mut cts: Vec<GlweCiphertext<T>> = Vec::new();
        let mut i: usize = 0;
        while i < count.0
            invariant
                i <= count.0,
                cts@.len() == i,
                poly_size.0 >= 1,
                glwe_size.0 == dimension.0 + 1,
                forall|l: int|
                    0 <= l < i ==> (#[trigger] cts@[l]).wf() && cts@[l].dim() == dimension.0
                        && cts@[l].body.len() == poly_size.0,
            decreases count.0 - i,
        {
            let ct = GlweCiphertext::allocate(poly_size, glwe_size);
            cts.push(ct);
            i = i + 1;
        }
        GlweList { cts, glwe_dimension: dimension, poly_size }
    }
}

impl<T: TorusElement> GlweSecretKey<T> {
    /// Encrypts a list of plaintexts, one ciphertext per `poly_size` slots
    /// of `encoded`, each with a fresh mask and fresh errors. Every phase
    /// coefficient of every ciphertext lies within six noise spreads of its
    /// plaintext along the torus.
    pub fn encrypt_glwe_list(
        &self,
        output: &mut GlweList<T>,
        encoded: &PlaintextList<T>,
        noise: Variance,
        gen: &mut RandomSource,
    )
        requires
            self.wf(),
            old(output).wf(),
            old(output).glwe_dimension.0 == self.polys@.len(),
            old(output).poly_size == self.poly_size,
            self.polys@.len() < usize::MAX,
            encoded.coefs@.len() == old(output).cts@.len() * self.poly_size.0,
            12 * noise_spread(noise, T::bits_spec()) < T::modulus(),
        ensures
            final(output).wf(),
            final(output).cts@.len() == old(output).cts@.len(),
            final(output).glwe_dimension == old(output).glwe_dimension,
            final(output).poly_size == old(output).poly_size,
            forall|i: int, j: int|
                0 <= i < old(output).cts@.len() && 0 <= j < self.poly_size.0 ==> torus_dist(
                    #[trigger] final(output).cts@[i].phase(*self, j),
                    encoded.coefs@[i * self.poly_size.0 + j].as_int(),
                    T::modulus(),
                ) <= 6 * noise_spread(noise, T::bits_spec()),
    {
        let n = self.poly_size.0;
        let count = output.cts.len();
        let total = encoded.coefs.len();
        let mut off: usize = 0;
        let mut i: usize = 0;
        while i < count
            invariant
                i <= count,
                off == i * n,
                n == self.poly_size.0,
                n >= 1,
                self.wf(),
                self.polys@.len() < usize::MAX,
                output.wf(),
                output.cts@.len() == count,
                output.glwe_dimension == old(output).glwe_dimension,
                output.poly_size == old(output).poly_size,
                output.glwe_dimension.0 == self.polys@.len(),
                output.poly_size == self.poly_size,
                encoded.coefs@.len() == count * n,
                total == encoded.coefs@.len(),
                12 * noise_spread(noise, T::bits_spec()) < T::modulus(),
                forall|l: int, j: int|
                    0 <= l < i && 0 <= j < n ==> torus_dist(
                        #[trigger] output.cts@[l].phase(*self, j),
                        encoded.coefs@[l * n + j].as_int(),
                        T::modulus(),
                    ) <= 6 * noise_spread(noise, T::bits_spec()),
            decreases count - i,
        {
            proof {
                vstd::arithmetic::mul::lemma_mul_inequality(i + 1 as int, count as int, n as int);
                assert((i + 1 as int) * (n as int) == i * n + n) by (nonlinear_arith);
            }
            let mut chunk: Vec<T> = Vec::new();
            let mut j: usize = 0;
            while j < n
                invariant
                    j <= n,
                    chunk@.len() == j,
                    off == i * n,
                    total == encoded.coefs@.len(),
                    off + n <= total,
                    forall|l: int| 0 <= l < j ==> chunk@[l] == encoded.coefs@[off + l],
                decreases n - j,
            {
                let v = encoded.coefs[off + j];
                chunk.push(v);
                j = j + 1;
            }
            let chunk_list = PlaintextList::from_container(chunk);
            let mut ct2 = GlweCiphertext::allocate(
                self.poly_size,
                GlweSize(self.polys.len() + 1),
            );
            self.encrypt_glwe(&mut ct2, &chunk_list, noise, gen);
            let ghost prev = *output;
            output.cts.set(i, ct2);
            proof {
                assert forall|l: int, j2: int| 0 <= l < i + 1 && 0 <= j2 < n implies torus_dist(
                    #[trigger] output.cts@[l].phase(*self, j2),
                    encoded.coefs@[l * n + j2].as_int(),
                    T::modulus(),
                ) <= 6 * noise_spread(noise, T::bits_spec()) by {
                    if l < i as int {
                        assert(output.cts@[l] == prev.cts@[l]);
                        assert(torus_dist(
                            prev.cts@[l].phase(*self, j2),
                            encoded.coefs@[l * n + j2].as_int(),
                            T::modulus(),
                        ) <= 6 * noise_spread(noise, T::bits_spec()));
                    } else {
                        assert(chunk_list.coefs@[j2] == encoded.coefs@[l * n + j2]);
                    }
                }
            }
            off = off + n;
            i = i + 1;
        }
    }

    /// Decrypts every ciphertext of a list into consecutive `poly_size`
    /// slots of `decrypted`: each slot receives exactly the corresponding
    /// phase coefficient.
    pub fn decrypt_glwe_list(&self, decrypted: &mut PlaintextList<T>, list: &GlweList<T>)
        requires
            self.wf(),
            list.wf(),
            list.glwe_dimension.0 == self.polys@.len(),
            list.poly_size == self.poly_size,
            old(decrypted).coefs@.len() == list.cts@.len() * self.poly_size.0,
        ensures
            final(decrypted).coefs@.len() == old(decrypted).coefs@.len(),
            forall|i: int, j: int|
                0 <= i < list.cts@.len() && 0 <= j < self.poly_size.0 ==> (#[trigger] final(
                    decrypted).coefs@[i * self.poly_size.0 + j]).as_int() == list.cts@[i].phase(
                    *self,
                    j,
                ),
    {
        let n = self.poly_size.0;
        let count = list.cts.len();
        let total = decrypted.coefs.len();
        let mut off: usize = 0;
        let mut i: usize = 0;
        while i < count
            invariant
                i <= count,
                off == i * n,
                n == self.poly_size.0,
                n >= 1,
                self.wf(),
                list.wf(),
                list.glwe_dimension.0 == self.polys@.len(),
                list.poly_size == self.poly_size,
                list.cts@.len() == count,
                decrypted.coefs@.len() == count * n,
                total == decrypted.coefs@.len(),
                forall|l: int, j: int|
                    0 <= l < i && 0 <= j < n ==> (#[trigger] decrypted.coefs@[l * n + j]).as_int()
                        == list.cts@[l].phase(*self, j),
            decreases count - i,
        {
            proof {
                vstd::arithmetic::mul::lemma_mul_inequality(i + 1 as int, count as int, n as int);
                assert((i + 1 as int) * (n as int) == i * n + n) by (nonlinear_arith);
            }
            let mut slot = PlaintextList { coefs: Polynomial::<T>::allocate(self.poly_size).coefs };
            self.decrypt_glwe(&mut slot, &list.cts[i]);
            let mut j: usize = 0;
            while j < n
                invariant
                    j <= n,
                    off == i * n,
                    i < count,
                    total == decrypted.coefs@.len(),
                    off + n <= total,
                    decrypted.coefs@.len() == count * n,
                    n == self.poly_size.0,
                    slot.coefs@.len() == n,
                    list.cts@.len() == count,
                    forall|l2: int|
                        0 <= l2 < n ==> (#[trigger] slot.coefs@[l2]).as_int() == list.cts@[
                            i as int
                        ].phase(*self, l2),
                    forall|l: int, j2: int|
                        0 <= l < i && 0 <= j2 < n ==> (#[trigger] decrypted.coefs@[l * n
                            + j2]).as_int() == list.cts@[l].phase(*self, j2),
                    forall|l2: int|
                        0 <= l2 < j ==> (#[trigger] decrypted.coefs@[off + l2]).as_int() == list.cts@[
                            i as int
                        ].phase(*self, l2),
                decreases n - j,
            {
                let v = slot.coefs[j];
                let ghost prevd = *decrypted;
                decrypted.coefs.set(off + j, v);
                proof {
                    assert forall|l: int, j2: int| 0 <= l < i && 0 <= j2 < n implies (
                    #[trigger] decrypted.coefs@[l * n + j2]).as_int() == list.cts@[l].phase(
                        *self,
                        j2,
                    ) by {
                        vstd::arithmetic::mul::lemma_mul_inequality(l + 1, i as int, n as int);
                        assert((l + 1) * (n as int) == l * n + n) by (nonlinear_arith);
                        assert(l * n + j2 < i * n);
                        assert(decrypted.coefs@[l * n + j2] == prevd.coefs@[l * n + j2]);
                    }
                    assert forall|l2: int| 0 <= l2 < j + 1 implies (#[trigger] decrypted.coefs@[off
                        + l2]).as_int() == list.cts@[i as int].phase(*self, l2) by {
                        if l2 < j as int {
                            assert(decrypted.coefs@[off + l2] == prevd.coefs@[off + l2]);
                        } else {
                            assert(decrypted.coefs@[off + l2] == v);
                        }
                    }
                }
                j = j + 1;
            }
            off = off + n;
            i = i + 1;
        }
    }
}

/// A seeded GLWE ciphertext: the body polynomial and the seed from which the
/// mask polynomials were drawn, in place of the polynomials themselves. It
/// compresses a ciphertext to one polynomial plus a seed; expansion
/// regenerates the mask from the seed.
#[derive(Clone, Debug)]
pub struct GlweSeededCiphertext<T: TorusElement> {
    pub body: Polynomial<T>,
    pub glwe_dimension: GlweDimension,
    pub seed: Seed,
}

impl<T: TorusElement> GlweSeededCiphertext<T> {
    /// Allocates an all-zero seeded ciphertext of the given shape.
    pub fn allocate(poly_size: PolynomialSize, dimension: GlweDimension) -> (r: Self)
        ensures
            r.body.len() == poly_size.0,
            r.glwe_dimension == dimension,
    {
        GlweSeededCiphertext {
            body: Polynomial::allocate(poly_size),
            glwe_dimension: dimension,
            seed: Seed(0),
        }
    }

    /// Expands the seeded ciphertext into a full GLWE ciphertext: re-draws
    /// the mask polynomials from the stored seed — the same draws encryption
    /// made — and copies the body. Decrypting the expansion recovers what
    /// the seeded encryption stored.
    pub fn expand_into(&self, output: &mut GlweCiphertext<T>)
        requires
            self.body.len() >= 1,
            old(output).wf(),
            old(output).dim() == self.glwe_dimension.0,
            old(output).body.len() == self.body.len(),
        ensures
            final(output).wf(),
            final(output).dim() == old(output).dim(),
            final(output).body.len() == old(output).body.len(),
            final(output).body.coefs@ == self.body.coefs@,
    {
        let mut gen = RandomSource::new(self.seed);
        let k = output.mask.len();
        let size = PolynomialSize(self.body.coefs.len());
        let new_mask = draw_mask_polys::<T>(&mut gen, k, size);
        output.mask = new_mask;
        let n = self.body.coefs.len();
        let mut body: Vec<T> = Vec::new();
        let mut j: usize = 0;
        while j < n
            invariant
                j <= n,
                body@.len() == j,
                self.body.coefs@.len() == n,
                forall|l: int| 0 <= l < j ==> body@[l] == self.body.coefs@[l],
            decreases n - j,
        {
            let v = self.body.coefs[j];
            body.push(v);
            j = j + 1;
        }
        output.body = Polynomial::from_container(body);
        proof {
            assert(output.body.coefs@ =~= self.body.coefs@);
        }
    }
}

impl<T: TorusElement> GlweSecretKey<T> {
    /// Encrypts a plaintext list into a seeded ciphertext: draws the mask
    /// polynomials from the given seed, stores only the seed and the
    /// computed body. Expanding with the same seed re-creates the mask, so
    /// the expansion's phase carries the plaintexts with the requested
    /// noise, exactly as `encrypt_glwe`'s does.
    pub fn encrypt_seeded_glwe(
        &self,
        output: &mut GlweSeededCiphertext<T>,
        encoded: &PlaintextList<T>,
        noise: Variance,
        seed: Seed,
    )
        requires
            self.wf(),
            old(output).body.len() == self.poly_size.0,
            old(output).glwe_dimension.0 == self.polys@.len(),
            encoded.coefs@.len() == self.poly_size.0,
            12 * noise_spread(noise, T::bits_spec()) < T::modulus(),
        ensures
            final(output).body.len() == self.poly_size.0,
            final(output).glwe_dimension == old(output).glwe_dimension,
            final(output).seed == seed,
    {
        proof {
            T::lemma_modulus();
        }
        let mut gen = RandomSource::new(seed);
        let k = self.polys.len();
        let mask = draw_mask_polys::<T>(&mut gen, k, self.poly_size);
        let dot = glwe_mask_key_dot(&mask, self, self.poly_size);
        let width = T::bits();
        let spread = spread_of_variance(noise, width);
        let n = self.poly_size.0;
        let mut body: Vec<T> = Vec::new();
        let mut j: usize = 0;
        while j < n
            invariant
                j <= n,
                body@.len() == j,
                dot.len() == n,
                encoded.coefs@.len() == n,
                T::modulus() > 1,
                spread as int == noise_spread(noise, T::bits_spec()),
                12 * noise_spread(noise, T::bits_spec()) < T::modulus(),
            decreases n - j,
        {
            let e: T = gen.sample_error(spread);
            let v = dot.coefs[j].wadd(encoded.coefs[j]).wadd(e);
            body.push(v);
            j = j + 1;
        }
        output.body = Polynomial::from_container(body);
        output.seed = seed;
    }
}

/// Draws `k` polynomials of `size` coefficients, every coefficient uniform.
fn draw_mask_polys<T: TorusElement>(
    gen: &mut RandomSource,
    k: usize,
    size: PolynomialSize,
) -> (r: Vec<Polynomial<T>>)
    ensures
        r@.len() == k,
        forall|i: int| 0 <= i < k ==> (#[trigger] r@[i]).len() == size.0,
{
    let mut polys: Vec<Polynomial<T>> = Vec::new();
    let mut i: usize = 0;
    while i < k
        invariant
            i <= k,
            polys@.len() == i,
            forall|l: int| 0 <= l < i ==> (#[trigger] polys@[l]).len() == size.0,
        decreases k - i,
    {
        let mut coefs: Vec<T> = Vec::new();
        let mut c: usize = 0;
        while c < size.0
            invariant
                c <= size.0,
                coefs@.len() == c,
            decreases size.0 - c,
        {
            let w: T = gen.random_torus();
            coefs.push(w);
            c = c + 1;
        }
        polys.push(Polynomial::from_container(coefs));
        i = i + 1;
    }
    polys
}

} // verus!
