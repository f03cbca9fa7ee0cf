//! Key-switching: re-encrypting an LWE ciphertext valid under one key into
//! one valid under another, by decomposing each input mask element into
//! digits and subtracting the matching pre-encrypted key material, one
//! discarding accumulation per digit.

use vstd::prelude::*;
use vstd::arithmetic::div_mod::{lemma_sub_mod_noop, lemma_small_mod};
use vstd::arithmetic::power2::{pow2, lemma_pow2_strictly_increases};
use crate::torus::{TorusElement, torus_dist};
use crate::params::{LweDimension, LweSize, DecompositionBaseLog, DecompositionLevelCount};
use crate::plaintext::{Plaintext, Cleartext};
use crate::lwe::{LweCiphertext, LweSecretKey};
use crate::decomposition::{decomp_wf, decomp_digit, decompose_torus};
use crate::random::RandomSource;
use crate::noise::{Variance, noise_spread, pow2_u128, lemma_pow2_increases};

verus! {

/// The flat index of the ciphertext for input bit `i` and decomposition
/// level `j` in a key-switching key.
pub open spec fn ks_flat_index(i: int, j: int, level: int) -> int {
    i * level + j
}

/// A key-switching key: for every bit of the input key and every
/// decomposition level, an encryption under the output key of that bit
/// scaled to the level's position.
#[derive(Clone, Debug)]
pub struct LweKeyswitchKey<T: TorusElement> {
    pub cts: Vec<LweCiphertext<T>>,
    pub input_dimension: LweDimension,
    pub output_dimension: LweDimension,
    pub decomp_base_log: DecompositionBaseLog,
    pub decomp_level_count: DecompositionLevelCount,
}

impl<T: TorusElement> LweKeyswitchKey<T> {
    /// One ciphertext per input bit and level, each of the output dimension,
    /// under decomposition settings that fit the torus.
    pub open spec fn wf(self) -> bool {
        &&& decomp_wf(
            self.decomp_base_log.0 as int,
            self.decomp_level_count.0 as int,
            T::bits_spec(),
        )
        &&& self.cts@.len() == self.input_dimension.0 * self.decomp_level_count.0
        &&& forall|p: int|
            0 <= p < self.cts@.len() ==> (#[trigger] self.cts@[p]).dim()
                == self.output_dimension.0
    }

    /// The dimension a ciphertext must have to be switched by this key.
    pub fn input_lwe_dimension(&self) -> (r: LweDimension)
        ensures
            r == self.input_dimension,
    {
        self.input_dimension
    }

    /// The dimension of the ciphertexts the switch produces.
    pub fn output_lwe_dimension(&self) -> (r: LweDimension)
        ensures
            r == self.output_dimension,
    {
        self.output_dimension
    }

    /// The decomposition radix, as its base-2 logarithm.
    pub fn decomposition_base_log(&self) -> (r: DecompositionBaseLog)
        ensures
            r == self.decomp_base_log,
    {
        self.decomp_base_log
    }

    /// The number of decomposition levels.
    pub fn decomposition_level_count(&self) -> (r: DecompositionLevelCount)
        ensures
            r == self.decomp_level_count,
    {
        self.decomp_level_count
    }

    /// Generates a key-switching key: encrypts, under the output key, every
    /// input key bit scaled to every decomposition level's position. Each
    /// entry's phase lies within six noise spreads of the scaled bit.
    pub fn generate(
        input_key: &LweSecretKey<T>,
        output_key: &LweSecretKey<T>,
        base_log: DecompositionBaseLog,
        level: DecompositionLevelCount,
        noise: Variance,
        gen: &mut RandomSource,
    ) -> (r: Self)
        requires
            input_key.wf(),
            output_key.wf(),
            output_key.coeffs@.len() < usize::MAX,
            input_key.coeffs@.len() * level.0 <= usize::MAX,
            decomp_wf(base_log.0 as int, level.0 as int, T::bits_spec()),
            12 * noise_spread(noise, T::bits_spec()) < T::modulus(),
        ensures
            r.wf(),
            r.input_dimension.0 == input_key.coeffs@.len(),
            r.output_dimension.0 == output_key.coeffs@.len(),
            r.decomp_base_log == base_log,
            r.decomp_level_count == level,
            forall|i: int, j: int|
                0 <= i < input_key.coeffs@.len() && 0 <= j < level.0 ==> torus_dist(
                    #[trigger] r.cts@[ks_flat_index(i, j, level.0 as int)].phase(*output_key),
                    (input_key.coeffs@[i].as_int() * pow2(
                        (T::bits_spec() - (j + 1) * base_log.0) as nat,
                    )) % T::modulus(),
                    T::modulus(),
                ) <= 6 * noise_spread(noise, T::bits_spec()),
    {
        proof {
            T::lemma_modulus();
        }
        let n_in = input_key.coeffs.len();
        let w = T::bits();
        let mut cts: Vec<LweCiphertext<T>> = Vec::new();
        let mut i: usize = 0;
        while i < n_in
            invariant
                i <= n_in,
                n_in == input_key.coeffs@.len(),
                input_key.wf(),
                output_key.wf(),
                output_key.coeffs@.len() < usize::MAX,
                n_in * level.0 <= usize::MAX,
                decomp_wf(base_log.0 as int, level.0 as int, T::bits_spec()),
                12 * noise_spread(noise, T::bits_spec()) < T::modulus(),
                T::modulus() > 1,
                w as nat == T::bits_spec(),
                0 < w <= 64,
                cts@.len() == (i as int) * (level.0 as int),
                forall|p: int|
                    0 <= p < cts@.len() ==> (#[trigger] cts@[p]).dim()
                        == output_key.coeffs@.len(),
                forall|a: int, b: int|
                    0 <= a < i && 0 <= b < level.0 ==> torus_dist(
                        #[trigger] cts@[ks_flat_index(a, b, level.0 as int)].phase(*output_key),
                        (input_key.coeffs@[a].as_int() * pow2(
                            (T::bits_spec() - (b + 1) * base_log.0) as nat,
                        )) % T::modulus(),
                        T::modulus(),
                    ) <= 6 * noise_spread(noise, T::bits_spec()),
            decreases n_in - i,
        {
            proof {
                vstd::arithmetic::mul::lemma_mul_inequality(
                    i + 1 as int,
                    n_in as int,
                    level.0 as int,
                );
                assert((i + 1 as int) * (level.0 as int) == (i as int) * (level.0 as int)
                    + level.0) by (nonlinear_arith);
            }
            let mut j: usize = 0;
            while j < level.0
                invariant
                    i < n_in,
                    j <= level.0,
                    n_in == input_key.coeffs@.len(),
                    input_key.wf(),
                    output_key.wf(),
                    output_key.coeffs@.len() < usize::MAX,
                    decomp_wf(base_log.0 as int, level.0 as int, T::bits_spec()),
                    12 * noise_spread(noise, T::bits_spec()) < T::modulus(),
                    T::modulus() > 1,
                    w as nat == T::bits_spec(),
                    0 < w <= 64,
                    cts@.len() == (i as int) * (level.0 as int) + j,
                    (i as int + 1) * (level.0 as int) <= n_in * level.0 <= usize::MAX,
                    (i + 1 as int) * (level.0 as int) == (i as int) * (level.0 as int) + level.0,
                    forall|p: int|
                        0 <= p < cts@.len() ==> (#[trigger] cts@[p]).dim()
                            == output_key.coeffs@.len(),
                    forall|a: int, b: int|
                        0 <= a < i && 0 <= b < level.0 ==> torus_dist(
                            #[trigger] cts@[ks_flat_index(a, b, level.0 as int)].phase(
                                *output_key,
                            ),
                            (input_key.coeffs@[a].as_int() * pow2(
                                (T::bits_spec() - (b + 1) * base_log.0) as nat,
                            )) % T::modulus(),
                            T::modulus(),
                        ) <= 6 * noise_spread(noise, T::bits_spec()),
                    forall|b: int|
                        0 <= b < j ==> torus_dist(
                            #[trigger] cts@[ks_flat_index(i as int, b, level.0 as int)].phase(
                                *output_key,
                            ),
                            (input_key.coeffs@[i as int].as_int() * pow2(
                                (T::bits_spec() - (b + 1) * base_log.0) as nat,
                            )) % T::modulus(),
                            T::modulus(),
                        ) <= 6 * noise_spread(noise, T::bits_spec()),
                decreases level.0 - j,
            {
                proof {
                    T::lemma_modulus();
                    vstd::arithmetic::mul::lemma_mul_inequality(
                        j + 1 as int,
                        level.0 as int,
                        base_log.0 as int,
                    );
                    assert((j + 1 as int) * (base_log.0 as int) == (j as int) * (base_log.0 as int)
                        + base_log.0) by (nonlinear_arith);
                    vstd::arithmetic::mul::lemma_mul_nonnegative(j as int, base_log.0 as int);
                    assert(j + 1 <= (j + 1 as int) * (base_log.0 as int)) by (nonlinear_arith)
                        requires
                            base_log.0 >= 1 && j >= 0,
                    ;
                }
                let shift: u32 = w - (((j as u32) + 1) * (base_log.0 as u32));
                let power = pow2_u128(shift);
                proof {
                    lemma_pow2_strictly_increases(shift as nat, T::bits_spec());
                }
                let scale: T = T::from_int_u128(power);
                let pt = Plaintext(input_key.coeffs[i].wmul(scale));
                let mut ct = LweCiphertext::allocate(output_key.lwe_dimension().to_lwe_size());
                output_key.encrypt_lwe(&mut ct, &pt, noise, gen);
                let ghost oldcts = cts@;
                cts.push(ct);
                proof {
                    lemma_keyswitch_key_push(
                        cts@,
                        oldcts,
                        *input_key,
                        *output_key,
                        i as int,
                        j as int,
                        level.0 as int,
                        base_log.0 as int,
                        noise,
                    );
                }
                j = j + 1;
            }
            i = i + 1;
        }
        LweKeyswitchKey {
            cts,
            input_dimension: LweDimension(n_in),
            output_dimension: output_key.lwe_dimension(),
            decomp_base_log: base_log,
            decomp_level_count: level,
        }
    }
}

/// Pushing the entry for pair `(i, j)` keeps every earlier entry's property
/// and adds the new one at its flat index.
proof fn lemma_keyswitch_key_push<T: TorusElement>(
    cts: Seq<LweCiphertext<T>>,
    oldcts: Seq<LweCiphertext<T>>,
    input_key: LweSecretKey<T>,
    output_key: LweSecretKey<T>,
    i: int,
    j: int,
    level: int,
    base_log: int,
    noise: Variance,
)
    requires
        level >= 1,
        0 <= i,
        0 <= j < level,
        oldcts.len() == i * level + j,
        cts == oldcts.push(cts[i * level + j]),
        cts.len() == oldcts.len() + 1,
        forall|a: int, b: int|
            0 <= a < i && 0 <= b < level ==> torus_dist(
                #[trigger] oldcts[ks_flat_index(a, b, level)].phase(output_key),
                (input_key.coeffs@[a].as_int() * pow2(
                    (T::bits_spec() - (b + 1) * base_log) as nat,
                )) % T::modulus(),
                T::modulus(),
            ) <= 6 * noise_spread(noise, T::bits_spec()),
        forall|b: int|
            0 <= b < j ==> torus_dist(
                #[trigger] oldcts[ks_flat_index(i, b, level)].phase(output_key),
                (input_key.coeffs@[i].as_int() * pow2(
                    (T::bits_spec() - (b + 1) * base_log) as nat,
                )) % T::modulus(),
                T::modulus(),
            ) <= 6 * noise_spread(noise, T::bits_spec()),
        torus_dist(
            cts[i * level + j].phase(output_key),
            (input_key.coeffs@[i].as_int() * pow2(
                (T::bits_spec() - (j + 1) * base_log) as nat,
            )) % T::modulus(),
            T::modulus(),
        ) <= 6 * noise_spread(noise, T::bits_spec()),
    ensures
        forall|a: int, b: int|
            0 <= a < i && 0 <= b < level ==> torus_dist(
                #[trigger] cts[ks_flat_index(a, b, level)].phase(output_key),
                (input_key.coeffs@[a].as_int() * pow2(
                    (T::bits_spec() - (b + 1) * base_log) as nat,
                )) % T::modulus(),
                T::modulus(),
            ) <= 6 * noise_spread(noise, T::bits_spec()),
        forall|b: int|
            0 <= b < j + 1 ==> torus_dist(
                #[trigger] cts[ks_flat_index(i, b, level)].phase(output_key),
                (input_key.coeffs@[i].as_int() * pow2(
                    (T::bits_spec() - (b + 1) * base_log) as nat,
                )) % T::modulus(),
                T::modulus(),
            ) <= 6 * noise_spread(noise, T::bits_spec()),
{
    assert forall|a: int, b: int| 0 <= a < i && 0 <= b < level implies torus_dist(
        #[trigger] cts[ks_flat_index(a, b, level)].phase(output_key),
        (input_key.coeffs@[a].as_int() * pow2(
            (T::bits_spec() - (b + 1) * base_log) as nat,
        )) % T::modulus(),
        T::modulus(),
    ) <= 6 * noise_spread(noise, T::bits_spec()) by {
        vstd::arithmetic::mul::lemma_mul_inequality(a + 1, i, level);
        assert((a + 1) * level == a * level + level) by (nonlinear_arith);
        vstd::arithmetic::mul::lemma_mul_nonnegative(a, level);
        assert(0 <= ks_flat_index(a, b, level) < oldcts.len());
        assert(cts[ks_flat_index(a, b, level)] == oldcts[ks_flat_index(a, b, level)]);
    }
    assert forall|b: int| 0 <= b < j + 1 implies torus_dist(
        #[trigger] cts[ks_flat_index(i, b, level)].phase(output_key),
        (input_key.coeffs@[i].as_int() * pow2(
            (T::bits_spec() - (b + 1) * base_log) as nat,
        )) % T::modulus(),
        T::modulus(),
    ) <= 6 * noise_spread(noise, T::bits_spec()) by {
        vstd::arithmetic::mul::lemma_mul_nonnegative(i, level);
        if b < j {
            assert(0 <= ks_flat_index(i, b, level) < oldcts.len());
            assert(cts[ks_flat_index(i, b, level)] == oldcts[ks_flat_index(i, b, level)]);
        } else {
            assert(ks_flat_index(i, b, level) == i * level + j);
        }
    }
}

/// One accumulation term of the key switch: the key entry for flat pair `p`,
/// scaled by the matching digit of the matching input mask element.
pub open spec fn ks_term_mask<T: TorusElement>(
    ksk: LweKeyswitchKey<T>,
    input: LweCiphertext<T>,
    p: int,
    c: int,
) -> int {
    let level = ksk.decomp_level_count.0 as int;
    ksk.cts@[p].mask_int(c) * decomp_digit(
        input.mask_int(p / level),
        T::bits_spec(),
        ksk.decomp_base_log.0 as int,
        p % level,
    )
}

/// The mask coefficient `c` of the first `p` accumulation terms, as an exact
/// integer sum.
pub open spec fn ks_acc_mask<T: TorusElement>(
    ksk: LweKeyswitchKey<T>,
    input: LweCiphertext<T>,
    p: int,
    c: int,
) -> int
    decreases p,
{
    if p <= 0 {
        0
    } else {
        ks_acc_mask(ksk, input, p - 1, c) + ks_term_mask(ksk, input, p - 1, c)
    }
}

/// One body accumulation term of the key switch.
pub open spec fn ks_term_body<T: TorusElement>(
    ksk: LweKeyswitchKey<T>,
    input: LweCiphertext<T>,
    p: int,
) -> int {
    let level = ksk.decomp_level_count.0 as int;
    ksk.cts@[p].body_int() * decomp_digit(
        input.mask_int(p / level),
        T::bits_spec(),
        ksk.decomp_base_log.0 as int,
        p % level,
    )
}

/// The body of the first `p` accumulation terms, as an exact integer sum.
pub open spec fn ks_acc_body<T: TorusElement>(
    ksk: LweKeyswitchKey<T>,
    input: LweCiphertext<T>,
    p: int,
) -> int
    decreases p,
{
    if p <= 0 {
        0
    } else {
        ks_acc_body(ksk, input, p - 1) + ks_term_body(ksk, input, p - 1)
    }
}

/// Discarding key switch: overwrites `output` with the input re-encrypted
/// under the key-switching key's output key — the trivial embedding of the
/// input body, minus every key entry scaled by the matching digit of the
/// decomposed input mask.
pub fn discard_keyswitch_lwe_ciphertext<T: TorusElement>(
    output: &mut LweCiphertext<T>,
    input: &LweCiphertext<T>,
    ksk: &LweKeyswitchKey<T>,
)
    requires
        ksk.wf(),
        input.dim() == ksk.input_dimension.0,
        old(output).dim() == ksk.output_dimension.0,
        ksk.output_dimension.0 < usize::MAX,
    ensures
        final(output).dim() == ksk.output_dimension.0,
        forall|c: int|
            0 <= c < ksk.output_dimension.0 ==> #[trigger] final(output).mask_int(c) == (0
                - ks_acc_mask(*ksk, *input, ksk.cts@.len() as int, c)) % T::modulus(),
        final(output).body_int() == (input.body_int() - ks_acc_body(
            *ksk,
            *input,
            ksk.cts@.len() as int,
        )) % T::modulus(),
{
    proof {
        T::lemma_modulus();
    }
    let n_out = output.mask.len();
    let n_in = input.mask.len();
    let total = ksk.cts.len();
    let level = ksk.decomp_level_count;
    let base_log = ksk.decomp_base_log;
    let body_pt = Plaintext(input.body);
    let start = LweCiphertext::trivial_encrypt(LweSize(n_out + 1), &body_pt);
    output.fill_with_copy(&start);
    proof {
        T::lemma_in_range(input.body);
        lemma_small_mod(input.body_int() as nat, T::modulus() as nat);
        lemma_small_mod(0, T::modulus() as nat);
        assert forall|c: int| 0 <= c < n_out implies #[trigger] output.mask_int(c) == (0
            - ks_acc_mask(*ksk, *input, 0, c)) % T::modulus() by {
            assert(output.mask@[c] == start.mask@[c]);
            assert(start.mask_int(c) == 0);
        }
    }
    let mut p: usize = 0;
    let mut i: usize = 0;
    while i < n_in
        invariant
            i <= n_in,
            p == (i as int) * (level.0 as int),
            n_in == input.mask@.len(),
            n_out == ksk.output_dimension.0,
            output.mask@.len() == n_out,
            ksk.wf(),
            input.dim() == ksk.input_dimension.0,
            level == ksk.decomp_level_count,
            base_log == ksk.decomp_base_log,
            T::modulus() > 1,
            n_out < usize::MAX,
            total == ksk.cts@.len(),
            p <= total,
            forall|c: int|
                0 <= c < n_out ==> #[trigger] output.mask_int(c) == (0 - ks_acc_mask(
                    *ksk,
                    *input,
                    p as int,
                    c,
                )) % T::modulus(),
            output.body_int() == (input.body_int() - ks_acc_body(*ksk, *input, p as int))
                % T::modulus(),
        decreases n_in - i,
    {
        proof {
            vstd::arithmetic::mul::lemma_mul_inequality(
                i + 1 as int,
                n_in as int,
                level.0 as int,
            );
            assert((i + 1 as int) * (level.0 as int) == (i as int) * (level.0 as int) + level.0)
                by (nonlinear_arith);
            assert(ksk.cts@.len() == (n_in as int) * (level.0 as int));
        }
        let digits = decompose_torus(input.mask[i], base_log, level);
        let mut j: usize = 0;
        while j < level.0
            invariant
                i < n_in,
                j <= level.0,
                p == (i as int) * (level.0 as int) + j,
                p + (level.0 - j) <= total,
                n_in == input.mask@.len(),
                n_out == ksk.output_dimension.0,
                output.mask@.len() == n_out,
                ksk.wf(),
                input.dim() == ksk.input_dimension.0,
                level == ksk.decomp_level_count,
                base_log == ksk.decomp_base_log,
                T::modulus() > 1,
                n_out < usize::MAX,
                total == ksk.cts@.len(),
                digits@.len() == level.0,
                forall|l: int|
                    0 <= l < level.0 ==> #[trigger] digits@[l] == decomp_digit(
                        input.mask_int(i as int),
                        T::bits_spec(),
                        base_log.0 as int,
                        l,
                    ),
                forall|l: int| 0 <= l < level.0 ==> #[trigger] digits@[l] < pow2(
                    base_log.0 as nat,
                ),
                forall|c: int|
                    0 <= c < n_out ==> #[trigger] output.mask_int(c) == (0 - ks_acc_mask(
                        *ksk,
                        *input,
                        p as int,
                        c,
                    )) % T::modulus(),
                output.body_int() == (input.body_int() - ks_acc_body(*ksk, *input, p as int))
                    % T::modulus(),
            decreases level.0 - j,
        {
            proof {
                T::lemma_modulus();
                assert((base_log.0 as int) <= (level.0 as int) * (base_log.0 as int))
                    by (nonlinear_arith)
                    requires
                        level.0 >= 1 && base_log.0 >= 0,
                ;
                lemma_pow2_increases(base_log.0 as nat, T::bits_spec());
                vstd::arithmetic::div_mod::lemma_fundamental_div_mod_converse(
                    p as int,
                    level.0 as int,
                    i as int,
                    j as int,
                );
            }
            let d: T = T::from_bits_u64(digits[j]);
            proof {
                lemma_small_mod(digits@[j as int] as nat, T::modulus() as nat);
            }
            let mut term = LweCiphertext::allocate(LweSize(n_out + 1));
            term.fill_with_cleartext_mul(&ksk.cts[p], &Cleartext(d));
            let ghost prev = *output;
            output.update_with_sub(&term);
            proof {
                let m = T::modulus();
                let tot = p as int;
                assert forall|c: int| 0 <= c < n_out implies #[trigger] output.mask_int(c) == (0
                    - ks_acc_mask(*ksk, *input, tot + 1, c)) % m by {
                    let s = ks_acc_mask(*ksk, *input, tot, c);
                    let t = ks_term_mask(*ksk, *input, tot, c);
                    assert(term.mask_int(c) == (ksk.cts@[tot].mask_int(c) * d.as_int()) % m);
                    assert(d.as_int() == decomp_digit(
                        input.mask_int(i as int),
                        T::bits_spec(),
                        base_log.0 as int,
                        j as int,
                    ));
                    assert(t % m == term.mask_int(c));
                    assert(output.mask_int(c) == ((0 - s) % m - t % m) % m);
                    lemma_sub_mod_noop(0 - s, t, m);
                }
                let sb = ks_acc_body(*ksk, *input, tot);
                let tb = ks_term_body(*ksk, *input, tot);
                assert(term.body_int() == (ksk.cts@[tot].body_int() * d.as_int()) % m);
                assert(tb % m == term.body_int());
                assert(output.body_int() == ((input.body_int() - sb) % m - tb % m) % m);
                lemma_sub_mod_noop(input.body_int() - sb, tb, m);
            }
            p = p + 1;
            j = j + 1;
        }
        i = i + 1;
    }
}

} // verus!
