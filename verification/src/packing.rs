//! Packing key-switching: folding a vector of LWE ciphertexts into one GLWE
//! ciphertext, one coefficient slot per input, by the same
//! digit-decomposition accumulation as the plain key switch — with the
//! digits of all slots gathered into one polynomial per (input bit, level)
//! pair, so each pair costs a single ring multiplication.

use vstd::prelude::*;
use vstd::arithmetic::div_mod::{lemma_sub_mod_noop, lemma_small_mod};
use vstd::arithmetic::power2::pow2;
use crate::torus::{TorusElement, torus_dist};
use crate::params::{
    LweDimension, GlweDimension, GlweSize, PolynomialSize, DecompositionBaseLog,
    DecompositionLevelCount,
};
use crate::plaintext::PlaintextList;
use crate::polynomial::{Polynomial, negacyclic_prefix};
use crate::lwe::LweSecretKey;
use crate::glwe::{GlweCiphertext, GlweSecretKey};
use crate::vector::LweCiphertextVector;
use crate::decomposition::{decomp_wf, decomp_digit, decompose_torus};
use crate::ggsw::{negacyclic_prefix_ints, poly_ints, lemma_negacyclic_ints_agree};
use crate::keyswitch::ks_flat_index;
use crate::random::RandomSource;
use crate::noise::{Variance, noise_spread, pow2_u128, lemma_pow2_increases};

verus! {

/// A packing key-switching key: for every bit of the input LWE key and
/// every decomposition level, a GLWE encryption of that bit scaled to the
/// level's position, sitting in coefficient slot zero.
#[derive(Clone, Debug)]
pub struct PackingKeyswitchKey<T: TorusElement> {
    pub cts: Vec<GlweCiphertext<T>>,
    pub input_dimension: LweDimension,
    pub output_glwe_dimension: GlweDimension,
    pub output_poly_size: PolynomialSize,
    pub decomp_base_log: DecompositionBaseLog,
    pub decomp_level_count: DecompositionLevelCount,
}

impl<T: TorusElement> PackingKeyswitchKey<T> {
    /// One GLWE row per (input bit, level) pair, of the output shape, under
    /// decomposition settings that fit the torus.
    pub open spec fn wf(self) -> bool {
        &&& decomp_wf(
            self.decomp_base_log.0 as int,
            self.decomp_level_count.0 as int,
            T::bits_spec(),
        )
        &&& self.output_poly_size.0 >= 1
        &&& self.cts@.len() == self.input_dimension.0 * self.decomp_level_count.0
        &&& forall|p: int|
            0 <= p < self.cts@.len() ==> (#[trigger] self.cts@[p]).wf() && self.cts@[p].dim()
                == self.output_glwe_dimension.0 && self.cts@[p].body.len()
                == self.output_poly_size.0
    }

    /// Generates a packing key-switching key: encrypts, under the output
    /// GLWE key, every input key bit scaled to every level's position, in
    /// slot zero of the plaintext list. Every entry's phase at slot zero
    /// lies within six noise spreads of the scaled bit, and within six
    /// spreads of zero everywhere else.
    pub fn generate(
        input_key: &LweSecretKey<T>,
        output_key: &GlweSecretKey<T>,
        base_log: DecompositionBaseLog,
        level: DecompositionLevelCount,
        noise: Variance,
        gen: &mut RandomSource,
    ) -> (r: Self)
        requires
            input_key.wf(),
            output_key.wf(),
            output_key.polys@.len() < usize::MAX,
            input_key.coeffs@.len() * level.0 <= usize::MAX,
            decomp_wf(base_log.0 as int, level.0 as int, T::bits_spec()),
            12 * noise_spread(noise, T::bits_spec()) < T::modulus(),
        ensures
            r.wf(),
            r.input_dimension.0 == input_key.coeffs@.len(),
            r.output_glwe_dimension.0 == output_key.polys@.len(),
            r.output_poly_size == output_key.poly_size,
            r.decomp_base_log == base_log,
            r.decomp_level_count == level,
            forall|i: int, j: int, c: int|
                0 <= i < input_key.coeffs@.len() && 0 <= j < level.0 && 0 <= c
                    < output_key.poly_size.0 ==> torus_dist(
                    #[trigger] r.cts@[ks_flat_index(i, j, level.0 as int)].phase(*output_key, c),
                    if c == 0 {
                        (input_key.coeffs@[i].as_int() * pow2(
                            (T::bits_spec() - (j + 1) * base_log.0) as nat,
                        )) % T::modulus()
                    } else {
                        0
                    },
                    T::modulus(),
                ) <= 6 * noise_spread(noise, T::bits_spec()),
    {
        proof {
            T::lemma_modulus();
        }
        let n_in = input_key.coeffs.len();
        let w = T::bits();
        let n = output_key.poly_size;
        let mut cts: Vec<GlweCiphertext<T>> = Vec::new();
        let mut i: usize = 0;
        while i < n_in
            invariant
                i <= n_in,
                n_in == input_key.coeffs@.len(),
                input_key.wf(),
                output_key.wf(),
                output_key.polys@.len() < usize::MAX,
                n == output_key.poly_size,
                n.0 >= 1,
                n_in * level.0 <= usize::MAX,
                decomp_wf(base_log.0 as int, level.0 as int, T::bits_spec()),
                12 * noise_spread(noise, T::bits_spec()) < T::modulus(),
                T::modulus() > 1,
                w as nat == T::bits_spec(),
                0 < w <= 64,
                cts@.len() == (i as int) * (level.0 as int),
                forall|p: int|
                    0 <= p < cts@.len() ==> (#[trigger] cts@[p]).wf() && cts@[p].dim()
                        == output_key.polys@.len() && cts@[p].body.len() == n.0,
                forall|a: int, b: int, c: int|
                    0 <= a < i && 0 <= b < level.0 && 0 <= c < n.0 ==> torus_dist(
                        #[trigger] cts@[ks_flat_index(a, b, level.0 as int)].phase(
                            *output_key,
                            c,
                        ),
                        if c == 0 {
                            (input_key.coeffs@[a].as_int() * pow2(
                                (T::bits_spec() - (b + 1) * base_log.0) as nat,
                            )) % T::modulus()
                        } else {
                            0
                        },
                        T::modulus(),
                    ) <= 6 * noise_spread(noise, T::bits_spec()),
            decreases n_in - i,
        {
            proof {
                vstd::arithmetic::mul::lemma_mul_inequality(
                    i + 1 as int,
                    n_in as int,
                    level.0 as int,
                );
                assert((i + 1 as int) * (level.0 as int) == (i as int) * (level.0 as int)
                    + level.0) by (nonlinear_arith);
            }
            let mut j: usize = 0;
            while j < level.0
                invariant
                    i < n_in,
                    j <= level.0,
                    n_in == input_key.coeffs@.len(),
                    input_key.wf(),
                    output_key.wf(),
                    output_key.polys@.len() < usize::MAX,
                    n == output_key.poly_size,
                    n.0 >= 1,
                    decomp_wf(base_log.0 as int, level.0 as int, T::bits_spec()),
                    12 * noise_spread(noise, T::bits_spec()) < T::modulus(),
                    T::modulus() > 1,
                    w as nat == T::bits_spec(),
                    0 < w <= 64,
                    cts@.len() == (i as int) * (level.0 as int) + j,
                    (i as int + 1) * (level.0 as int) <= n_in * level.0 <= usize::MAX,
                    (i + 1 as int) * (level.0 as int) == (i as int) * (level.0 as int) + level.0,
                    forall|p: int|
                        0 <= p < cts@.len() ==> (#[trigger] cts@[p]).wf() && cts@[p].dim()
                            == output_key.polys@.len() && cts@[p].body.len() == n.0,
                    forall|a: int, b: int, c: int|
                        0 <= a < i && 0 <= b < level.0 && 0 <= c < n.0 ==> torus_dist(
                            #[trigger] cts@[ks_flat_index(a, b, level.0 as int)].phase(
                                *output_key,
                                c,
                            ),
                            if c == 0 {
                                (input_key.coeffs@[a].as_int() * pow2(
                                    (T::bits_spec() - (b + 1) * base_log.0) as nat,
                                )) % T::modulus()
                            } else {
                                0
                            },
                            T::modulus(),
                        ) <= 6 * noise_spread(noise, T::bits_spec()),
                    forall|b: int, c: int|
                        0 <= b < j && 0 <= c < n.0 ==> torus_dist(
                            #[trigger] cts@[ks_flat_index(i as int, b, level.0 as int)].phase(
                                *output_key,
                                c,
                            ),
                            if c == 0 {
                                (input_key.coeffs@[i as int].as_int() * pow2(
                                    (T::bits_spec() - (b + 1) * base_log.0) as nat,
                                )) % T::modulus()
                            } else {
                                0
                            },
                            T::modulus(),
                        ) <= 6 * noise_spread(noise, T::bits_spec()),
                decreases level.0 - j,
            {
                proof {
                    T::lemma_modulus();
                    vstd::arithmetic::mul::lemma_mul_inequality(
                        j + 1 as int,
                        level.0 as int,
                        base_log.0 as int,
                    );
                    assert((j + 1 as int) * (base_log.0 as int) == (j as int) * (base_log.0 as int)
                        + base_log.0) by (nonlinear_arith);
                    vstd::arithmetic::mul::lemma_mul_nonnegative(j as int, base_log.0 as int);
                    assert(j + 1 <= (j + 1 as int) * (base_log.0 as int)) by (nonlinear_arith)
                        requires
                            base_log.0 >= 1 && j >= 0,
                    ;
                }
                let shift: u32 = w - (((j as u32) + 1) * (base_log.0 as u32));
                let power = pow2_u128(shift);
                proof {
                    vstd::arithmetic::power2::lemma_pow2_strictly_increases(
                        shift as nat,
                        T::bits_spec(),
                    );
                }
                let scale: T = T::from_int_u128(power);
                let scaled = input_key.coeffs[i].wmul(scale);
                let mut slot: Vec<T> = Vec::new();
                slot.push(scaled);
                let mut c: usize = 1;
                while c < n.0
                    invariant
                        1 <= c <= n.0,
                        slot@.len() == c,
                        slot@[0] == scaled,
                        forall|l: int| 1 <= l < c ==> (#[trigger] slot@[l]).as_int() == 0,
                    decreases n.0 - c,
                {
                    slot.push(T::zero());
                    c = c + 1;
                }
                let encoded = PlaintextList::from_container(slot);
                let mut ct = GlweCiphertext::allocate(n, GlweSize(output_key.polys.len() + 1));
                output_key.encrypt_glwe(&mut ct, &encoded, noise, gen);
                let ghost oldcts = cts@;
                cts.push(ct);
                proof {
                    lemma_packing_key_push(
                        cts@,
                        oldcts,
                        *input_key,
                        *output_key,
                        i as int,
                        j as int,
                        level.0 as int,
                        base_log.0 as int,
                        noise,
                        n.0 as int,
                    );
                }
                j = j + 1;
            }
            i = i + 1;
        }
        PackingKeyswitchKey {
            cts,
            input_dimension: LweDimension(n_in),
            output_glwe_dimension: GlweDimension(output_key.polys.len()),
            output_poly_size: n,
            decomp_base_log: base_log,
            decomp_level_count: level,
        }
    }
}

/// The digits of every slot's mask element `i` at level `j`, gathered into
/// one polynomial: coefficient `s` is the digit of input ciphertext `s`,
/// zero beyond the inputs.
pub open spec fn pack_digit_ints<T: TorusElement>(
    inputs: LweCiphertextVector<T>,
    i: int,
    j: int,
    base_log: int,
    n: int,
) -> Seq<int> {
    Seq::new(
        n as nat,
        |s: int|
            if s < inputs.cts@.len() {
                decomp_digit(inputs.cts@[s].mask_int(i), T::bits_spec(), base_log, j)
            } else {
                0
            },
    )
}

/// One accumulation term of the packing key switch at output component `t`,
/// coefficient `c`: the negacyclic convolution of the gathered digit
/// polynomial for flat pair `p` with component `t` of key entry `p`.
pub open spec fn pk_term<T: TorusElement>(
    pksk: PackingKeyswitchKey<T>,
    inputs: LweCiphertextVector<T>,
    p: int,
    t: int,
    c: int,
) -> int {
    let level = pksk.decomp_level_count.0 as int;
    let row = pksk.cts@[p];
    let row_poly = if t < row.dim() {
        row.mask@[t]
    } else {
        row.body
    };
    let n = pksk.output_poly_size.0 as int;
    negacyclic_prefix_ints(
        pack_digit_ints(inputs, p / level, p % level, pksk.decomp_base_log.0 as int, n),
        poly_ints(row_poly),
        n,
        c,
        n,
    )
}

/// The sum of the first `p` accumulation terms of the packing key switch at
/// output component `t`, coefficient `c`.
pub open spec fn pk_acc<T: TorusElement>(
    pksk: PackingKeyswitchKey<T>,
    inputs: LweCiphertextVector<T>,
    p: int,
    t: int,
    c: int,
) -> int
    decreases p,
{
    if p <= 0 {
        0
    } else {
        pk_acc(pksk, inputs, p - 1, t, c) + pk_term(pksk, inputs, p - 1, t, c)
    }
}

/// Coefficient `c` of the body polynomial the fold starts from: the body of
/// input ciphertext `c`, zero beyond the inputs.
pub open spec fn packed_body_int<T: TorusElement>(inputs: LweCiphertextVector<T>, c: int) -> int {
    if c < inputs.cts@.len() {
        inputs.cts@[c].body_int()
    } else {
        0
    }
}

/// The discarding packing key switch: folds the input LWE ciphertexts into
/// one GLWE ciphertext, one coefficient slot per input — the bodies laid
/// into the body polynomial, minus every key entry multiplied by the
/// gathered digit polynomial of the corresponding input mask elements.
pub fn discard_packing_keyswitch_lwe_ciphertext_vector<T: TorusElement>(
    output: &mut GlweCiphertext<T>,
    inputs: &LweCiphertextVector<T>,
    pksk: &PackingKeyswitchKey<T>,
)
    requires
        pksk.wf(),
        inputs.wf(),
        inputs.lwe_size.0 - 1 == pksk.input_dimension.0,
        inputs.cts@.len() <= pksk.output_poly_size.0,
        old(output).wf(),
        old(output).dim() == pksk.output_glwe_dimension.0,
        old(output).body.len() == pksk.output_poly_size.0,
        pksk.output_glwe_dimension.0 < usize::MAX,
    ensures
        final(output).wf(),
        final(output).dim() == pksk.output_glwe_dimension.0,
        final(output).body.len() == pksk.output_poly_size.0,
        forall|t: int, c: int|
            0 <= t < pksk.output_glwe_dimension.0 && 0 <= c < pksk.output_poly_size.0
                ==> #[trigger] final(output).mask@[t].coef_int(c) == (0 - pk_acc(
                *pksk,
                *inputs,
                pksk.cts@.len() as int,
                t,
                c,
            )) % T::modulus(),
        forall|c: int|
            0 <= c < pksk.output_poly_size.0 ==> #[trigger] final(output).body.coef_int(c) == (
            packed_body_int(*inputs, c) - pk_acc(
                *pksk,
                *inputs,
                pksk.cts@.len() as int,
                pksk.output_glwe_dimension.0 as int,
                c,
            )) % T::modulus(),
{
    proof {
        T::lemma_modulus();
    }
    let n = pksk.output_poly_size;
    let k = pksk.output_glwe_dimension.0;
    let n_in = pksk.input_dimension.0;
    let level = pksk.decomp_level_count;
    let base_log = pksk.decomp_base_log;
    let total = pksk.cts.len();
    let count = inputs.cts.len();
    let mut out = GlweCiphertext::allocate(n, GlweSize(k + 1));
    let mut body: Vec<T> = Vec::new();
    let mut s: usize = 0;
    while s < n.0
        invariant
            s <= n.0,
            body@.len() == s,
            count == inputs.cts@.len(),
            count <= n.0,
            forall|l: int|
                0 <= l < s ==> (#[trigger] body@[l]).as_int() == packed_body_int(*inputs, l),
        decreases n.0 - s,
    {
        if s < count {
            let v = inputs.cts[s].body;
            body.push(v);
        } else {
            body.push(T::zero());
        }
        s = s + 1;
    }
    out.body = Polynomial::from_container(body);
    proof {
        lemma_small_mod(0, T::modulus() as nat);
        assert forall|c: int| 0 <= c < n.0 implies #[trigger] out.body.coef_int(c) == (
        packed_body_int(*inputs, c) - pk_acc(*pksk, *inputs, 0, k as int, c)) % T::modulus() by {
            T::lemma_in_range(out.body.coefs@[c]);
            lemma_small_mod(out.body.coef_int(c) as nat, T::modulus() as nat);
        }
    }
    let mut p: usize = 0;
    let mut i: usize = 0;
    while i < n_in
        invariant
            i <= n_in,
            p == (i as int) * (level.0 as int),
            p <= total,
            total == pksk.cts@.len(),
            pksk.wf(),
            inputs.wf(),
            inputs.lwe_size.0 - 1 == n_in,
            count == inputs.cts@.len(),
            count <= n.0,
            n_in == pksk.input_dimension.0,
            k == pksk.output_glwe_dimension.0,
            n == pksk.output_poly_size,
            level == pksk.decomp_level_count,
            base_log == pksk.decomp_base_log,
            k < usize::MAX,
            T::modulus() > 1,
            out.wf(),
            out.mask@.len() == k,
            out.body.len() == n.0,
            forall|t: int, c: int|
                0 <= t < k && 0 <= c < n.0 ==> #[trigger] out.mask@[t].coef_int(c) == (0 - pk_acc(
                    *pksk,
                    *inputs,
                    p as int,
                    t,
                    c,
                )) % T::modulus(),
            forall|c: int|
                0 <= c < n.0 ==> #[trigger] out.body.coef_int(c) == (packed_body_int(*inputs, c)
                    - pk_acc(*pksk, *inputs, p as int, k as int, c)) % T::modulus(),
        decreases n_in - i,
    {
        proof {
            vstd::arithmetic::mul::lemma_mul_inequality(
                i + 1 as int,
                n_in as int,
                level.0 as int,
            );
            assert((i + 1 as int) * (level.0 as int) == (i as int) * (level.0 as int) + level.0)
                by (nonlinear_arith);
            assert((n_in as int) * (level.0 as int) == pksk.cts@.len());
        }
        let mut j: usize = 0;
        while j < level.0
            invariant
                i < n_in,
                j <= level.0,
                p == (i as int) * (level.0 as int) + j,
                p + (level.0 - j) <= total,
                total == pksk.cts@.len(),
                pksk.wf(),
                inputs.wf(),
                inputs.lwe_size.0 - 1 == n_in,
                count == inputs.cts@.len(),
                count <= n.0,
                n_in == pksk.input_dimension.0,
                k == pksk.output_glwe_dimension.0,
                n == pksk.output_poly_size,
                level == pksk.decomp_level_count,
                base_log == pksk.decomp_base_log,
                k < usize::MAX,
                T::modulus() > 1,
                out.wf(),
                out.mask@.len() == k,
                out.body.len() == n.0,
                forall|t: int, c: int|
                    0 <= t < k && 0 <= c < n.0 ==> #[trigger] out.mask@[t].coef_int(c) == (0
                        - pk_acc(*pksk, *inputs, p as int, t, c)) % T::modulus(),
                forall|c: int|
                    0 <= c < n.0 ==> #[trigger] out.body.coef_int(c) == (packed_body_int(
                        *inputs,
                        c,
                    ) - pk_acc(*pksk, *inputs, p as int, k as int, c)) % T::modulus(),
            decreases level.0 - j,
        {
            proof {
                vstd::arithmetic::div_mod::lemma_fundamental_div_mod_converse(
                    p as int,
                    level.0 as int,
                    i as int,
                    j as int,
                );
            }
            let dig = pack_digit_polynomial(inputs, i, base_log, level, j, n);
            let row = &pksk.cts[p];
            let mut tmp = Polynomial::allocate(n);
            let mut t: usize = 0;
            while t < k
                invariant
                    t <= k,
                    i < n_in,
                    j < level.0,
                    p < total,
                    p == (i as int) * (level.0 as int) + j,
                    (p as int) / (level.0 as int) == i as int,
                    (p as int) % (level.0 as int) == j as int,
                    total == pksk.cts@.len(),
                    pksk.wf(),
                    inputs.wf(),
                    inputs.lwe_size.0 - 1 == n_in,
                    count == inputs.cts@.len(),
                    count <= n.0,
                    n_in == pksk.input_dimension.0,
                    k == pksk.output_glwe_dimension.0,
                    n == pksk.output_poly_size,
                    level == pksk.decomp_level_count,
                    base_log == pksk.decomp_base_log,
                    k < usize::MAX,
                    T::modulus() > 1,
                    out.wf(),
                    out.mask@.len() == k,
                    out.body.len() == n.0,
                    tmp.len() == n.0,
                    row == &pksk.cts@[p as int],
                    dig.len() == n.0,
                    forall|c: int|
                        0 <= c < n.0 ==> (#[trigger] dig.coefs@[c]).as_int() == pack_digit_ints(
                            *inputs,
                            i as int,
                            j as int,
                            base_log.0 as int,
                            n.0 as int,
                        )[c],
                    forall|t2: int, c: int|
                        t <= t2 < k && 0 <= c < n.0 ==> #[trigger] out.mask@[t2].coef_int(c) == (
                        0 - pk_acc(*pksk, *inputs, p as int, t2, c)) % T::modulus(),
                    forall|t2: int, c: int|
                        0 <= t2 < t && 0 <= c < n.0 ==> #[trigger] out.mask@[t2].coef_int(c) == (
                        0 - pk_acc(*pksk, *inputs, p + 1 as int, t2, c)) % T::modulus(),
                    forall|c: int|
                        0 <= c < n.0 ==> #[trigger] out.body.coef_int(c) == (packed_body_int(
                            *inputs,
                            c,
                        ) - pk_acc(*pksk, *inputs, p as int, k as int, c)) % T::modulus(),
                decreases k - t,
            {
                tmp.fill_with_negacyclic_mul(&dig, &row.mask[t]);
                proof {
                    lemma_pk_term_from_mul(
                        *pksk,
                        *inputs,
                        tmp,
                        dig,
                        row.mask@[t as int],
                        p as int,
                        t as int,
                        n.0 as int,
                        i as int,
                        j as int,
                    );
                }
                let ghost before = out;
                let mut acc = Polynomial::allocate(n);
                acc.fill_with_sub(&out.mask[t], &tmp);
                out.mask.set(t, acc);
                proof {
                    assert forall|t2: int, c: int|
                        0 <= t2 < t + 1 && 0 <= c < n.0 implies #[trigger] out.mask@[
                    t2].coef_int(c) == (0 - pk_acc(*pksk, *inputs, p + 1 as int, t2, c))
                        % T::modulus() by {
                        if t2 < t as int {
                            assert(out.mask@[t2] == before.mask@[t2]);
                        } else {
                            let sacc = pk_acc(*pksk, *inputs, p as int, t2, c);
                            let term = pk_term(*pksk, *inputs, p as int, t2, c);
                            assert(before.mask@[t2].coef_int(c) == (0 - sacc) % T::modulus());
                            assert(out.mask@[t2].coef_int(c) == (before.mask@[t2].coef_int(c)
                                - tmp.coef_int(c)) % T::modulus());
                            lemma_sub_mod_noop(0 - sacc, term, T::modulus());
                        }
                    }
                    assert forall|t2: int, c: int|
                        (t + 1) <= t2 < k && 0 <= c < n.0 implies #[trigger] out.mask@[
                    t2].coef_int(c) == (0 - pk_acc(*pksk, *inputs, p as int, t2, c))
                        % T::modulus() by {
                        assert(out.mask@[t2] == before.mask@[t2]);
                    }
                }
                t = t + 1;
            }
            tmp.fill_with_negacyclic_mul(&dig, &row.body);
            proof {
                lemma_pk_term_from_mul(
                    *pksk,
                    *inputs,
                    tmp,
                    dig,
                    row.body,
                    p as int,
                    k as int,
                    n.0 as int,
                    i as int,
                    j as int,
                );
            }
            let ghost before = out;
            let mut acc = Polynomial::allocate(n);
            acc.fill_with_sub(&out.body, &tmp);
            out.body = acc;
            proof {
                assert forall|c: int| 0 <= c < n.0 implies #[trigger] out.body.coef_int(c) == (
                packed_body_int(*inputs, c) - pk_acc(*pksk, *inputs, p + 1 as int, k as int, c))
                    % T::modulus() by {
                    let sacc = pk_acc(*pksk, *inputs, p as int, k as int, c);
                    let term = pk_term(*pksk, *inputs, p as int, k as int, c);
                    assert(before.body.coef_int(c) == (packed_body_int(*inputs, c) - sacc)
                        % T::modulus());
                    lemma_sub_mod_noop(packed_body_int(*inputs, c) - sacc, term, T::modulus());
                }
                assert forall|t2: int, c: int|
                    0 <= t2 < k && 0 <= c < n.0 implies #[trigger] out.mask@[t2].coef_int(c) == (
                0 - pk_acc(*pksk, *inputs, p + 1 as int, t2, c)) % T::modulus() by {
                    assert(out.mask@[t2] == before.mask@[t2]);
                }
            }
            p = p + 1;
            j = j + 1;
        }
        i = i + 1;
    }
    *output = out;
}

/// A freshly multiplied digit-row polynomial stores, reduced to the torus,
/// exactly the packing key switch's term for that pair and component.
proof fn lemma_pk_term_from_mul<T: TorusElement>(
    pksk: PackingKeyswitchKey<T>,
    inputs: LweCiphertextVector<T>,
    tmp: Polynomial<T>,
    dig: Polynomial<T>,
    row_poly: Polynomial<T>,
    p: int,
    t: int,
    n: int,
    i: int,
    j: int,
)
    requires
        n == pksk.output_poly_size.0,
        n >= 1,
        0 <= p < pksk.cts@.len(),
        p / (pksk.decomp_level_count.0 as int) == i,
        p % (pksk.decomp_level_count.0 as int) == j,
        tmp.len() == n,
        dig.len() == n,
        row_poly.len() == n,
        0 <= t <= pksk.output_glwe_dimension.0,
        pksk.cts@[p].dim() == pksk.output_glwe_dimension.0,
        row_poly == (if t < pksk.cts@[p].dim() {
            pksk.cts@[p].mask@[t]
        } else {
            pksk.cts@[p].body
        }),
        forall|c: int|
            0 <= c < n ==> (#[trigger] dig.coefs@[c]).as_int() == pack_digit_ints(
                inputs,
                i,
                j,
                pksk.decomp_base_log.0 as int,
                n,
            )[c],
        forall|c: int|
            0 <= c < n ==> #[trigger] tmp.coef_int(c) == negacyclic_prefix(
                dig.coefs@,
                row_poly.coefs@,
                n,
                c,
                n,
            ) % T::modulus(),
    ensures
        forall|c: int|
            0 <= c < n ==> #[trigger] tmp.coef_int(c) == pk_term(pksk, inputs, p, t, c)
                % T::modulus(),
{
    assert forall|c: int| 0 <= c < n implies #[trigger] tmp.coef_int(c) == pk_term(
        pksk,
        inputs,
        p,
        t,
        c,
    ) % T::modulus() by {
        lemma_negacyclic_ints_agree(
            dig.coefs@,
            row_poly.coefs@,
            pack_digit_ints(inputs, i, j, pksk.decomp_base_log.0 as int, n),
            poly_ints(row_poly),
            n,
            c,
            n,
        );
    }
}

/// Builds the gathered digit polynomial for input mask element `i` at level
/// `j`: coefficient `s` is the digit of input ciphertext `s`, zero beyond
/// the inputs.
fn pack_digit_polynomial<T: TorusElement>(
    inputs: &LweCiphertextVector<T>,
    i: usize,
    base_log: DecompositionBaseLog,
    level: DecompositionLevelCount,
    j: usize,
    n: PolynomialSize,
) -> (r: Polynomial<T>)
    requires
        decomp_wf(base_log.0 as int, level.0 as int, T::bits_spec()),
        j < level.0,
        inputs.wf(),
        i < inputs.lwe_size.0 - 1,
        inputs.cts@.len() <= n.0,
    ensures
        r.len() == n.0,
        forall|c: int|
            0 <= c < n.0 ==> (#[trigger] r.coefs@[c]).as_int() == pack_digit_ints(
                *inputs,
                i as int,
                j as int,
                base_log.0 as int,
                n.0 as int,
            )[c],
{
    proof {
        T::lemma_modulus();
        assert((base_log.0 as int) <= (level.0 as int) * (base_log.0 as int)) by (nonlinear_arith)
            requires
                level.0 >= 1 && base_log.0 >= 0,
        ;
        lemma_pow2_increases(base_log.0 as nat, T::bits_spec());
    }
    let count = inputs.cts.len();
    let mut coefs: Vec<T> = Vec::new();
    let mut s: usize = 0;
    while s < n.0
        invariant
            s <= n.0,
            coefs@.len() == s,
            count == inputs.cts@.len(),
            count <= n.0,
            inputs.wf(),
            i < inputs.lwe_size.0 - 1,
            j < level.0,
            decomp_wf(base_log.0 as int, level.0 as int, T::bits_spec()),
            pow2(base_log.0 as nat) <= T::modulus(),
            T::modulus() > 1,
            forall|l: int|
                0 <= l < s ==> (#[trigger] coefs@[l]).as_int() == pack_digit_ints(
                    *inputs,
                    i as int,
                    j as int,
                    base_log.0 as int,
                    n.0 as int,
                )[l],
        decreases n.0 - s,
    {
        if s < count {
            let digits = decompose_torus(inputs.cts[s].mask[i], base_log, level);
            let d: T = T::from_bits_u64(digits[j]);
            proof {
                lemma_small_mod(digits@[j as int] as nat, T::modulus() as nat);
            }
            coefs.push(d);
        } else {
            coefs.push(T::zero());
        }
        s = s + 1;
    }
    Polynomial { coefs }
}

/// Pushing the entry for pair `(i, j)` keeps every earlier entry's property
/// and adds the new one at its flat index.
proof fn lemma_packing_key_push<T: TorusElement>(
    cts: Seq<GlweCiphertext<T>>,
    oldcts: Seq<GlweCiphertext<T>>,
    input_key: LweSecretKey<T>,
    output_key: GlweSecretKey<T>,
    i: int,
    j: int,
    level: int,
    base_log: int,
    noise: Variance,
    n: int,
)
    requires
        level >= 1,
        0 <= i,
        0 <= j < level,
        oldcts.len() == i * level + j,
        cts == oldcts.push(cts[i * level + j]),
        cts.len() == oldcts.len() + 1,
        forall|a: int, b: int, c: int|
            0 <= a < i && 0 <= b < level && 0 <= c < n ==> torus_dist(
                #[trigger] oldcts[ks_flat_index(a, b, level)].phase(output_key, c),
                if c == 0 {
                    (input_key.coeffs@[a].as_int() * pow2(
                        (T::bits_spec() - (b + 1) * base_log) as nat,
                    )) % T::modulus()
                } else {
                    0
                },
                T::modulus(),
            ) <= 6 * noise_spread(noise, T::bits_spec()),
        forall|b: int, c: int|
            0 <= b < j && 0 <= c < n ==> torus_dist(
                #[trigger] oldcts[ks_flat_index(i, b, level)].phase(output_key, c),
                if c == 0 {
                    (input_key.coeffs@[i].as_int() * pow2(
                        (T::bits_spec() - (b + 1) * base_log) as nat,
                    )) % T::modulus()
                } else {
                    0
                },
                T::modulus(),
            ) <= 6 * noise_spread(noise, T::bits_spec()),
        forall|c: int|
            0 <= c < n ==> torus_dist(
                #[trigger] cts[i * level + j].phase(output_key, c),
                if c == 0 {
                    (input_key.coeffs@[i].as_int() * pow2(
                        (T::bits_spec() - (j + 1) * base_log) as nat,
                    )) % T::modulus()
                } else {
                    0
                },
                T::modulus(),
            ) <= 6 * noise_spread(noise, T::bits_spec()),
    ensures
        forall|a: int, b: int, c: int|
            0 <= a < i && 0 <= b < level && 0 <= c < n ==> torus_dist(
                #[trigger] cts[ks_flat_index(a, b, level)].phase(output_key, c),
                if c == 0 {
                    (input_key.coeffs@[a].as_int() * pow2(
                        (T::bits_spec() - (b + 1) * base_log) as nat,
                    )) % T::modulus()
                } else {
                    0
                },
                T::modulus(),
            ) <= 6 * noise_spread(noise, T::bits_spec()),
        forall|b: int, c: int|
            0 <= b < j + 1 && 0 <= c < n ==> torus_dist(
                #[trigger] cts[ks_flat_index(i, b, level)].phase(output_key, c),
                if c == 0 {
                    (input_key.coeffs@[i].as_int() * pow2(
                        (T::bits_spec() - (b + 1) * base_log) as nat,
                    )) % T::modulus()
                } else {
                    0
                },
                T::modulus(),
            ) <= 6 * noise_spread(noise, T::bits_spec()),
{
    assert forall|a: int, b: int, c: int|
        0 <= a < i && 0 <= b < level && 0 <= c < n implies torus_dist(
        #[trigger] cts[ks_flat_index(a, b, level)].phase(output_key, c),
        if c == 0 {
            (input_key.coeffs@[a].as_int() * pow2(
                (T::bits_spec() - (b + 1) * base_log) as nat,
            )) % T::modulus()
        } else {
            0
        },
        T::modulus(),
    ) <= 6 * noise_spread(noise, T::bits_spec()) by {
        vstd::arithmetic::mul::lemma_mul_inequality(a + 1, i, level);
        assert((a + 1) * level == a * level + level) by (nonlinear_arith);
        vstd::arithmetic::mul::lemma_mul_nonnegative(a, level);
        assert(0 <= ks_flat_index(a, b, level) < oldcts.len());
        assert(cts[ks_flat_index(a, b, level)] == oldcts[ks_flat_index(a, b, level)]);
    }
    assert forall|b: int, c: int| 0 <= b < j + 1 && 0 <= c < n implies torus_dist(
        #[trigger] cts[ks_flat_index(i, b, level)].phase(output_key, c),
        if c == 0 {
            (input_key.coeffs@[i].as_int() * pow2(
                (T::bits_spec() - (b + 1) * base_log) as nat,
            )) % T::modulus()
        } else {
            0
        },
        T::modulus(),
    ) <= 6 * noise_spread(noise, T::bits_spec()) by {
        vstd::arithmetic::mul::lemma_mul_nonnegative(i, level);
        if b < j {
            assert(0 <= ks_flat_index(i, b, level) < oldcts.len());
            assert(cts[ks_flat_index(i, b, level)] == oldcts[ks_flat_index(i, b, level)]);
        } else {
            assert(ks_flat_index(i, b, level) == i * level + j);
        }
    }
}

} // verus!
