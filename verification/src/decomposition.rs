//! The gadget decomposition: a torus element approximated by `level` digits
//! in base `2^base_log`, most significant digit first. The recomposed value
//! differs from the input by less than one least-significant decomposition
//! unit — the error the key-switching noise formula accounts for.

use vstd::prelude::*;
use vstd::arithmetic::power2::{pow2, lemma_pow2_adds, lemma_pow2_pos, lemma_pow2_strictly_increases};
use vstd::arithmetic::div_mod::{
    lemma_fundamental_div_mod,
    lemma_div_denominator,
    lemma_basic_div,
    lemma_mod_bound,
};
use crate::torus::TorusElement;
use crate::params::{DecompositionBaseLog, DecompositionLevelCount};
use crate::noise::{pow2_u128, lemma_pow2_increases};

verus! {

/// The decomposition settings fit the torus width `w`: at least one digit,
/// digits of at least one bit each, and all digits together within the
/// representation.
pub open spec fn decomp_wf(base_log: int, level: int, w: nat) -> bool {
    &&& 1 <= base_log <= 63
    &&& 1 <= level
    &&& level * base_log <= w
}

/// The `i`-th digit of the decomposition of `x` (digit 0 is the most
/// significant): the `base_log` bits of `x` starting `(i + 1) * base_log`
/// bits below the top.
pub open spec fn decomp_digit(x: int, w: nat, base_log: int, i: int) -> int {
    (x / pow2((w - (i + 1) * base_log) as nat) as int) % pow2(base_log as nat) as int
}

/// The value recomposed from the first `t` digits, each scaled back to its
/// position.
pub open spec fn recomposed_prefix(x: int, w: nat, base_log: int, t: int) -> int
    decreases t,
{
    if t <= 0 {
        0
    } else {
        recomposed_prefix(x, w, base_log, t - 1) + decomp_digit(x, w, base_log, t - 1) * pow2(
            (w - t * base_log) as nat,
        ) as int
    }
}

/// The first `t` digits recompose exactly to `x` truncated below bit
/// `w - t * base_log`.
pub proof fn lemma_recomposition(x: int, w: nat, base_log: int, level: int, t: int)
    requires
        decomp_wf(base_log, level, w),
        0 <= t <= level,
        0 <= x < pow2(w),
    ensures
        recomposed_prefix(x, w, base_log, t) == (x / pow2((w - t * base_log) as nat) as int)
            * pow2((w - t * base_log) as nat) as int,
    decreases t,
{
    vstd::arithmetic::mul::lemma_mul_inequality(t, level, base_log);
    vstd::arithmetic::mul::lemma_mul_nonnegative(t, base_log);
    if t == 0 {
        assert(t * base_log == 0) by (nonlinear_arith)
            requires
                t == 0,
        ;
        assert(pow2((w - t * base_log) as nat) == pow2(w));
        lemma_pow2_pos(w);
        lemma_basic_div(x, pow2(w) as int);
        assert(x / pow2(w) as int == 0);
        assert(recomposed_prefix(x, w, base_log, t) == 0);
    } else {
        lemma_recomposition(x, w, base_log, level, t - 1);
        vstd::arithmetic::mul::lemma_mul_nonnegative(t - 1, base_log);
        vstd::arithmetic::mul::lemma_mul_inequality(t - 1, level, base_log);
        let g0 = (w - t * base_log) as nat;
        let g1 = (w - (t - 1) * base_log) as nat;
        assert((t - 1) * base_log == t * base_log - base_log) by (nonlinear_arith);
        assert(g1 == g0 + base_log);
        lemma_pow2_adds(g0, base_log as nat);
        lemma_pow2_pos(g0);
        lemma_pow2_pos(base_log as nat);
        let p0 = pow2(g0) as int;
        let pb = pow2(base_log as nat) as int;
        let a = x / p0;
        assert(pow2(g1) as int == p0 * pb);
        assert(x / (p0 * pb) == a / pb) by {
            lemma_div_denominator(x, p0, pb);
        }
        assert(recomposed_prefix(x, w, base_log, t - 1) == (a / pb) * (p0 * pb));
        assert(decomp_digit(x, w, base_log, t - 1) == a % pb);
        assert(recomposed_prefix(x, w, base_log, t) == (a / pb) * (p0 * pb) + (a % pb) * p0);
        lemma_fundamental_div_mod(a, pb);
        assert(a == pb * (a / pb) + a % pb);
        assert((a / pb) * (p0 * pb) + (a % pb) * p0 == (pb * (a / pb) + a % pb) * p0)
            by (nonlinear_arith);
        assert((pb * (a / pb) + a % pb) * p0 == a * p0) by (nonlinear_arith)
            requires
                a == pb * (a / pb) + a % pb,
        ;
        assert(recomposed_prefix(x, w, base_log, t) == a * p0);
    }
}

/// The decomposition error: `x` minus its recomposition from all `level`
/// digits is non-negative and below one least-significant unit,
/// `2^(w - level * base_log)`.
pub proof fn lemma_decomposition_error(x: int, w: nat, base_log: int, level: int)
    requires
        decomp_wf(base_log, level, w),
        0 <= x < pow2(w),
    ensures
        0 <= x - recomposed_prefix(x, w, base_log, level) < pow2(
            (w - level * base_log) as nat,
        ),
{
    lemma_recomposition(x, w, base_log, level, level);
    vstd::arithmetic::mul::lemma_mul_nonnegative(level, base_log);
    let g = (w - level * base_log) as nat;
    lemma_pow2_pos(g);
    lemma_fundamental_div_mod(x, pow2(g) as int);
    lemma_mod_bound(x, pow2(g) as int);
}

/// Decomposes a torus element into its `level` digits, most significant
/// first.
pub fn decompose_torus<T: TorusElement>(
    x: T,
    base_log: DecompositionBaseLog,
    level: DecompositionLevelCount,
) -> (r: Vec<u64>)
    requires
        decomp_wf(base_log.0 as int, level.0 as int, T::bits_spec()),
    ensures
        r@.len() == level.0,
        forall|i: int|
            0 <= i < level.0 ==> #[trigger] r@[i] == decomp_digit(
                x.as_int(),
                T::bits_spec(),
                base_log.0 as int,
                i,
            ),
        forall|i: int|
            0 <= i < level.0 ==> #[trigger] r@[i] < pow2(base_log.0 as nat),
{
    proof {
        T::lemma_modulus();
    }
    let w = T::bits();
    let v = x.to_u128();
    let b = base_log.0;
    let bpow = pow2_u128(b as u32);
    proof {
        lemma_pow2_pos(b as nat);
    }
    let mut digits: Vec<u64> = Vec::new();
    let mut i: usize = 0;
    while i < level.0
        invariant
            i <= level.0,
            digits@.len() == i,
            b == base_log.0,
            1 <= b <= 63,
            1 <= level.0,
            (level.0 as int) * (b as int) <= T::bits_spec(),
            w as nat == T::bits_spec(),
            0 < w <= 64,
            v as int == x.as_int(),
            bpow == pow2(b as nat),
            bpow >= 1,
            forall|l: int|
                0 <= l < i ==> #[trigger] digits@[l] == decomp_digit(
                    x.as_int(),
                    T::bits_spec(),
                    b as int,
                    l,
                ),
            forall|l: int| 0 <= l < i ==> #[trigger] digits@[l] < pow2(b as nat),
        decreases level.0 - i,
    {
        proof {
            vstd::arithmetic::mul::lemma_mul_inequality(
                i + 1 as int,
                level.0 as int,
                b as int,
            );
            assert((i + 1 as int) * (b as int) == (i as int) * (b as int) + b)
                by (nonlinear_arith);
            vstd::arithmetic::mul::lemma_mul_nonnegative(i as int, b as int);
        }
        let shift: u64 = (w as u64) - ((i as u64) + 1) * (b as u64);
        let q = v >> (shift as u128);
        proof {
            vstd::bits::lemma_u128_shr_is_div(v, shift as u128);
            lemma_pow2_pos(shift as nat);
        }
        let d128 = q % bpow;
        let d = d128 as u64;
        proof {
            lemma_mod_bound(q as int, bpow as int);
            assert(pow2(63) == 0x8000_0000_0000_0000) by {
                vstd::arithmetic::power2::lemma2_to64_rest();
            }
            lemma_pow2_increases(b as nat, 63);
            assert(d == d128);
            assert(d == decomp_digit(x.as_int(), T::bits_spec(), b as int, i as int));
        }
        digits.push(d);
        i = i + 1;
    }
    digits
}

} // verus!
