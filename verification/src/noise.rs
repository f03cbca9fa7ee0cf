//! The noise model: closed-form variance propagation for every operation of
//! the algebra, over exact dyadic numbers.
//!
//! A [`Variance`] stores a torus variance (the statistical spread of an
//! error term, measured as a fraction of the torus) in fixed units of
//! `2^-128`, so that the propagation formulas — sums for additions, scaling
//! by the square of a cleartext for multiplications — are computed exactly,
//! with no rounding. The engine's encryption operations convert a variance
//! into the integer spread of their error sampler through a verified
//! integer square root.

use vstd::prelude::*;
use vstd::arithmetic::power2::{pow2, lemma_pow2_adds, lemma_pow2_pos, lemma_pow2_subtracts, lemma2_to64};

verus! {

/// Base-2 logarithm of the denominator of every [`Variance`].
pub const VARIANCE_UNIT_LOG: u32 = 128;

/// A torus variance, stored exactly as `units / 2^128`.
///
/// Only variances below 1 are representable; a torus error term with a
/// larger variance wraps around the torus and carries no information, so
/// the engine never needs one.
#[derive(Clone, Copy, Debug, PartialEq, Eq, Structural)]
pub struct Variance {
    /// The variance in units of `2^-128`.
    pub units: u128,
}

impl Variance {
    /// The zero variance: the spread of an error term that is exactly zero.
    pub fn zero() -> (r: Variance)
        ensures
            r.units == 0,
    {
        Variance { units: 0 }
    }

    /// The variance of a Gaussian whose standard deviation is
    /// `2^log_std_dev`, as a fraction of the torus.
    pub fn from_log_standard_dev(log_std_dev: i32) -> (r: Variance)
        requires
            -64 <= log_std_dev <= -1,
        ensures
            r.units == pow2((VARIANCE_UNIT_LOG + 2 * log_std_dev) as nat),
    {
        let e: u32 = (VARIANCE_UNIT_LOG as i32 + 2 * log_std_dev) as u32;
        Variance { units: pow2_u128(e) }
    }
}

/// Computes `2^e` exactly.
pub fn pow2_u128(e: u32) -> (r: u128)
    requires
        e < 128,
    ensures
        r == pow2(e as nat),
{
    let mut r: u128 = 1;
    let mut i: u32 = 0;
    proof {
        lemma2_to64();
    }
    while i < e
        invariant
            i <= e < 128,
            r == pow2(i as nat),
        decreases e - i,
    {
        proof {
            lemma_pow2_adds(i as nat, 1);
            lemma2_to64();
            vstd::arithmetic::power2::lemma2_to64_rest();
            lemma_pow2_increases(i as nat, 126);
            lemma_pow2_adds(62, 64);
            assert(r * 2 == pow2((i + 1) as nat));
            assert(pow2(126) == pow2(62) * pow2(64));
        }
        r = r * 2;
        i = i + 1;
    }
    r
}

/// `pow2` is monotone.
pub proof fn lemma_pow2_increases(a: nat, b: nat)
    requires
        a <= b,
    ensures
        pow2(a) <= pow2(b),
    decreases b - a,
{
    if a < b {
        lemma_pow2_increases(a, (b - 1) as nat);
        lemma_pow2_adds((b - 1) as nat, 1);
        lemma2_to64();
    }
}

/// Predicted variance of a discarding or fusing addition or subtraction of
/// two independently encrypted ciphertexts: the exact sum of the inputs'
/// variances.
pub fn estimate_addition_noise(v1: Variance, v2: Variance) -> (r: Variance)
    requires
        v1.units + v2.units <= u128::MAX,
    ensures
        r.units == v1.units + v2.units,
{
    Variance { units: v1.units + v2.units }
}

/// Predicted variance of a cleartext multiplication: the input variance
/// scaled by the square of the cleartext.
pub fn estimate_cleartext_multiplication_noise(v: Variance, cleartext: u64) -> (r: Variance)
    requires
        v.units * (cleartext as int) * (cleartext as int) <= u128::MAX,
    ensures
        r.units == v.units * (cleartext as int) * (cleartext as int),
{
    let c: u128 = cleartext as u128;
    proof {
        assert(c * c <= u128::MAX) by (nonlinear_arith)
            requires
                0 <= c <= 0xffff_ffff_ffff_ffff_u128,
        ;
        assert(v.units * (c * c) == v.units * c * c) by (nonlinear_arith);
    }
    Variance { units: v.units * (c * c) }
}

/// The variance of a weighted sum of independent ciphertexts against the
/// cleartext weights `weights[..i]`: the running total of the affine
/// transform's prediction.
pub open spec fn weighted_noise_units(vs: Seq<Variance>, weights: Seq<u64>, i: int) -> int
    decreases i,
{
    if i <= 0 {
        0
    } else {
        weighted_noise_units(vs, weights, i - 1) + vs[i - 1].units * weights[i - 1] * weights[
            i - 1
        ]
    }
}

/// Predicted variance of a discarding affine transform: the sum of the
/// input variances, each scaled by the square of its cleartext weight.
pub fn estimate_affine_transform_noise(vs: &Vec<Variance>, weights: &Vec<u64>) -> (r: Variance)
    requires
        vs.len() == weights.len(),
        weighted_noise_units(vs@, weights@, vs.len() as int) <= u128::MAX,
    ensures
        r.units == weighted_noise_units(vs@, weights@, vs.len() as int),
{
    let mut acc: u128 = 0;
    let mut i: usize = 0;
    while i < vs.len()
        invariant
            i <= vs.len(),
            vs.len() == weights.len(),
            acc == weighted_noise_units(vs@, weights@, i as int),
            weighted_noise_units(vs@, weights@, vs.len() as int) <= u128::MAX,
        decreases vs.len() - i,
    {
        proof {
            lemma_weighted_noise_units_monotone(vs@, weights@, i + 1 as int, vs.len() as int);
        }
        let term = estimate_cleartext_multiplication_noise(vs[i], weights[i]);
        acc = acc + term.units;
        i = i + 1;
    }
    Variance { units: acc }
}

/// Every partial weighted sum is bounded by a later one: each term is
/// non-negative.
proof fn lemma_weighted_noise_units_monotone(vs: Seq<Variance>, weights: Seq<u64>, i: int, j: int)
    requires
        i <= j,
    ensures
        weighted_noise_units(vs, weights, i) <= weighted_noise_units(vs, weights, j),
    decreases j - i,
{
    if i < j {
        lemma_weighted_noise_units_monotone(vs, weights, i, j - 1);
        assert(vs[j - 1].units * weights[j - 1] * weights[j - 1] >= 0) by (nonlinear_arith);
    }
}

/// A variance built from a log standard deviation of `-4` or below realizes
/// a sampler spread small enough for every encryption: twelve spreads stay
/// below the torus. For `log_std_dev` within the width, the spread is
/// exactly the standard deviation scaled to the torus; further below, it
/// vanishes.
pub proof fn lemma_spread_of_log_std_dev(v: Variance, log_std_dev: int, width: nat)
    requires
        v.units == pow2((128 + 2 * log_std_dev) as nat),
        -64 <= log_std_dev <= -4,
        1 <= width <= 64,
    ensures
        12 * noise_spread(v, width) < pow2(width),
        width + log_std_dev >= 0 ==> noise_spread(v, width) == pow2(
            (width + log_std_dev) as nat,
        ),
        width + log_std_dev < 0 ==> noise_spread(v, width) == 0,
{
    let e = (128 + 2 * log_std_dev) as nat;
    let d = (128 - 2 * width) as nat;
    lemma_pow2_pos(e);
    lemma_pow2_pos(d);
    lemma_pow2_pos(width);
    let scaled = (v.units as int) / pow2(d) as int;
    if width + log_std_dev >= 0 {
        let k = (width + log_std_dev) as nat;
        assert(e == d + 2 * k);
        lemma_pow2_subtracts(d, e);
        assert(scaled == pow2((2 * k) as nat));
        lemma_pow2_adds(k, k);
        lemma_pow2_pos(k);
        assert(is_sqrt(scaled, pow2(k) as int)) by {
            assert(pow2(k) as int * pow2(k) as int == pow2((2 * k) as nat));
            assert((pow2(k) as int + 1) * (pow2(k) as int + 1) > pow2(k) as int * pow2(
                k,
            ) as int) by (nonlinear_arith)
                requires
                    pow2(k) as int >= 1,
            ;
        }
        lemma_sqrt_floor(scaled);
        lemma_sqrt_unique(scaled, pow2(k) as int, sqrt_floor(scaled));
        assert(noise_spread(v, width) == pow2(k));
        assert(12 * pow2(k) < pow2((k + 4) as nat)) by {
            lemma_pow2_adds(k, 4);
            lemma2_to64();
            assert(12 * pow2(k) < 16 * pow2(k)) by (nonlinear_arith)
                requires
                    pow2(k) as int >= 1,
            ;
        }
        lemma_pow2_increases((k + 4) as nat, width);
    } else {
        assert(e < d);
        vstd::arithmetic::power2::lemma_pow2_strictly_increases(e, d);
        vstd::arithmetic::div_mod::lemma_basic_div(v.units as int, pow2(d) as int);
        assert(scaled == 0);
        assert(is_sqrt(0, 0));
        lemma_sqrt_floor(0);
        lemma_sqrt_unique(0, 0, sqrt_floor(0));
        assert(noise_spread(v, width) == 0);
    }
}

/// The noise units predicted for the output of an external product or
/// programmable bootstrap: one decomposition-noise term per level and key
/// component, scaled by the square of the decomposition base, plus the
/// decomposition rounding term. The formula rounds the fractional constants
/// of the underlying statistics up to powers of two, so it is a closed-form
/// upper bound; above all, it does not mention the input ciphertext's prior
/// noise — the refresh discards it.
pub open spec fn external_product_noise_units(
    glwe_dimension: int,
    poly_size: int,
    base_log: int,
    level: int,
    key_units: int,
) -> int {
    level * (glwe_dimension + 1) * poly_size * key_units * pow2((2 * base_log - 2) as nat) + (
    glwe_dimension + 1) * poly_size * pow2((126 - 2 * level * base_log) as nat)
}

/// The noise units predicted after a bootstrap of a ciphertext whose prior
/// variance is `prior`: the external product's prediction, whatever the
/// prior was.
pub open spec fn bootstrap_output_noise_units(
    prior: Variance,
    glwe_dimension: int,
    poly_size: int,
    base_log: int,
    level: int,
    key_noise: Variance,
) -> int {
    external_product_noise_units(
        glwe_dimension,
        poly_size,
        base_log,
        level,
        key_noise.units as int,
    )
}

/// Bootstrap noise independence: the predicted output noise of the external
/// product — the bootstrap's core — depends only on the decomposition base,
/// the level count and the key material's noise. Two input ciphertexts with
/// any two prior noise levels are refreshed to the same predicted variance.
pub proof fn lemma_bootstrap_noise_independent(
    prior1: Variance,
    prior2: Variance,
    glwe_dimension: int,
    poly_size: int,
    base_log: int,
    level: int,
    key_noise: Variance,
)
    ensures
        bootstrap_output_noise_units(
            prior1,
            glwe_dimension,
            poly_size,
            base_log,
            level,
            key_noise,
        ) == bootstrap_output_noise_units(
            prior2,
            glwe_dimension,
            poly_size,
            base_log,
            level,
            key_noise,
        ),
{
}

/// Computes the external-product noise prediction exactly.
pub fn estimate_external_product_noise(
    glwe_dimension: usize,
    poly_size: usize,
    base_log: usize,
    level: usize,
    key_noise: Variance,
) -> (r: Variance)
    requires
        1 <= base_log,
        1 <= level,
        level * base_log <= 63,
        (glwe_dimension + 1) * poly_size <= u64::MAX,
        external_product_noise_units(
            glwe_dimension as int,
            poly_size as int,
            base_log as int,
            level as int,
            key_noise.units as int,
        ) <= u128::MAX,
    ensures
        r.units == external_product_noise_units(
            glwe_dimension as int,
            poly_size as int,
            base_log as int,
            level as int,
            key_noise.units as int,
        ),
{
    proof {
        lemma_noise_formula_bounds(
            glwe_dimension as int,
            poly_size as int,
            base_log as int,
            level as int,
            key_noise.units as int,
        );
    }
    let lb = level * base_log;
    proof {
        assert(2 * (level as int) * (base_log as int) == 2 * ((level as int) * (
        base_log as int))) by (nonlinear_arith);
    }
    let kn: u128 = ((glwe_dimension as u128) + 1) * (poly_size as u128);
    let a: u128 = (level as u128) * kn;
    let t1: u128 = a * key_noise.units;
    let p1: u128 = pow2_u128((2 * (base_log as u32)) - 2);
    let term1: u128 = t1 * p1;
    let p2: u128 = pow2_u128(126 - 2 * (lb as u32));
    let term2: u128 = kn * p2;
    Variance { units: term1 + term2 }
}

/// The noise units predicted for the output of a key switch: the input's
/// own noise, one key-material term per input bit and level scaled by the
/// square of the decomposition base, and the decomposition rounding term.
/// As in the external product's formula, fractional constants are rounded
/// up to powers of two, so this is a closed-form upper bound.
pub open spec fn keyswitch_noise_units(
    input_units: int,
    input_dimension: int,
    base_log: int,
    level: int,
    key_units: int,
) -> int {
    input_units + level * input_dimension * key_units * pow2((2 * base_log - 2) as nat)
        + input_dimension * pow2((126 - 2 * level * base_log) as nat)
}

/// Computes the key-switch noise prediction exactly.
pub fn estimate_keyswitch_noise(
    input_noise: Variance,
    input_dimension: usize,
    base_log: usize,
    level: usize,
    key_noise: Variance,
) -> (r: Variance)
    requires
        1 <= base_log,
        1 <= level,
        level * base_log <= 63,
        input_dimension + 1 <= u64::MAX,
        keyswitch_noise_units(
            input_noise.units as int,
            input_dimension as int,
            base_log as int,
            level as int,
            key_noise.units as int,
        ) <= u128::MAX,
    ensures
        r.units == keyswitch_noise_units(
            input_noise.units as int,
            input_dimension as int,
            base_log as int,
            level as int,
            key_noise.units as int,
        ),
{
    proof {
        lemma_keyswitch_formula_bounds(
            input_noise.units as int,
            input_dimension as int,
            base_log as int,
            level as int,
            key_noise.units as int,
        );
    }
    let lb = level * base_log;
    proof {
        assert(2 * (level as int) * (base_log as int) == 2 * ((level as int) * (
        base_log as int))) by (nonlinear_arith);
    }
    let nd: u128 = input_dimension as u128;
    let a: u128 = (level as u128) * nd;
    let t1: u128 = a * key_noise.units;
    let p1: u128 = pow2_u128((2 * (base_log as u32)) - 2);
    let term1: u128 = t1 * p1;
    let p2: u128 = pow2_u128(126 - 2 * (lb as u32));
    let term2: u128 = nd * p2;
    Variance { units: input_noise.units + term1 + term2 }
}

/// Every intermediate product of the key-switch formula is bounded by the
/// formula's value, because the remaining factors are at least one and the
/// input term is non-negative.
proof fn lemma_keyswitch_formula_bounds(vin: int, nd: int, b: int, l: int, key_units: int)
    requires
        1 <= b,
        1 <= l,
        l * b <= 63,
        0 <= nd,
        nd + 1 <= u64::MAX,
        0 <= vin,
        0 <= key_units,
        keyswitch_noise_units(vin, nd, b, l, key_units) <= u128::MAX,
    ensures
        b <= 63,
        l <= 63,
        0 <= l * nd <= 0x40_0000_0000_0000_0000,
        0 <= l * nd * key_units,
        l * nd * key_units <= l * nd * key_units * pow2((2 * b - 2) as nat),
        l * nd * key_units * pow2((2 * b - 2) as nat) <= u128::MAX,
        0 <= nd * pow2((126 - 2 * l * b) as nat) <= u128::MAX,
        vin + l * nd * key_units * pow2((2 * b - 2) as nat) + nd * pow2(
            (126 - 2 * l * b) as nat,
        ) == keyswitch_noise_units(vin, nd, b, l, key_units),
{
    lemma_pow2_pos((2 * b - 2) as nat);
    lemma_pow2_pos((126 - 2 * l * b) as nat);
    assert(b <= l * b) by (nonlinear_arith)
        requires
            l >= 1 && b >= 0,
    ;
    assert(l <= l * b) by (nonlinear_arith)
        requires
            b >= 1 && l >= 0,
    ;
    assert(l * nd <= 63 * nd) by (nonlinear_arith)
        requires
            l <= 63 && nd >= 0,
    ;
    assert(63 * nd <= 63 * 0xffff_ffff_ffff_ffff) by (nonlinear_arith)
        requires
            nd <= 0xffff_ffff_ffff_ffff,
    ;
    assert(l * nd >= 0) by (nonlinear_arith)
        requires
            l >= 0 && nd >= 0,
    ;
    assert(l * nd * key_units >= 0) by (nonlinear_arith)
        requires
            l * nd >= 0 && key_units >= 0,
    ;
    assert(l * nd * key_units <= l * nd * key_units * pow2((2 * b - 2) as nat))
        by (nonlinear_arith)
        requires
            l * nd * key_units >= 0 && pow2((2 * b - 2) as nat) >= 1,
    ;
    assert(nd * pow2((126 - 2 * l * b) as nat) >= 0) by (nonlinear_arith)
        requires
            nd >= 0 && pow2((126 - 2 * l * b) as nat) >= 1,
    ;
    assert(l * nd * key_units * pow2((2 * b - 2) as nat) >= 0) by (nonlinear_arith)
        requires
            l * nd * key_units >= 0 && pow2((2 * b - 2) as nat) >= 1,
    ;
}

/// Every intermediate product of the external-product formula is bounded by
/// the formula's value, because the remaining factors are at least one.
proof fn lemma_noise_formula_bounds(k: int, n: int, b: int, l: int, key_units: int)
    requires
        1 <= b,
        1 <= l,
        l * b <= 63,
        0 <= k,
        0 <= n,
        0 <= key_units,
        (k + 1) * n <= u64::MAX,
        external_product_noise_units(k, n, b, l, key_units) <= u128::MAX,
    ensures
        b <= 63,
        l <= 63,
        0 <= (k + 1) * n,
        0 <= l * ((k + 1) * n) <= 0x40_0000_0000_0000_0000,
        0 <= l * ((k + 1) * n) * key_units,
        l * ((k + 1) * n) * key_units <= l * ((k + 1) * n) * key_units * pow2(
            (2 * b - 2) as nat,
        ),
        l * ((k + 1) * n) * key_units * pow2((2 * b - 2) as nat) <= u128::MAX,
        0 <= ((k + 1) * n) * pow2((126 - 2 * l * b) as nat) <= u128::MAX,
        l * ((k + 1) * n) * key_units * pow2((2 * b - 2) as nat) + ((k + 1) * n) * pow2(
            (126 - 2 * l * b) as nat,
        ) == external_product_noise_units(k, n, b, l, key_units),
{
    lemma_pow2_pos((2 * b - 2) as nat);
    lemma_pow2_pos((126 - 2 * l * b) as nat);
    assert(b <= l * b) by (nonlinear_arith)
        requires
            l >= 1 && b >= 0,
    ;
    assert(l <= l * b) by (nonlinear_arith)
        requires
            b >= 1 && l >= 0,
    ;
    assert((k + 1) * n >= 0) by (nonlinear_arith)
        requires
            k >= 0 && n >= 0,
    ;
    assert(l * ((k + 1) * n) <= 63 * ((k + 1) * n)) by (nonlinear_arith)
        requires
            l <= 63 && (k + 1) * n >= 0,
    ;
    assert(63 * ((k + 1) * n) <= 63 * 0xffff_ffff_ffff_ffff) by (nonlinear_arith)
        requires
            (k + 1) * n <= 0xffff_ffff_ffff_ffff,
    ;
    assert(l * ((k + 1) * n) >= 0) by (nonlinear_arith)
        requires
            l >= 0 && (k + 1) * n >= 0,
    ;
    assert(l * ((k + 1) * n) * key_units >= 0) by (nonlinear_arith)
        requires
            l * ((k + 1) * n) >= 0 && key_units >= 0,
    ;
    assert(l * ((k + 1) * n) * key_units <= l * ((k + 1) * n) * key_units * pow2(
        (2 * b - 2) as nat,
    )) by (nonlinear_arith)
        requires
            l * ((k + 1) * n) * key_units >= 0 && pow2((2 * b - 2) as nat) >= 1,
    ;
    assert(((k + 1) * n) * pow2((126 - 2 * l * b) as nat) >= 0) by (nonlinear_arith)
        requires
            (k + 1) * n >= 0 && pow2((126 - 2 * l * b) as nat) >= 1,
    ;
    assert(l * ((k + 1) * n) * key_units * pow2((2 * b - 2) as nat) >= 0) by (nonlinear_arith)
        requires
            l * ((k + 1) * n) * key_units >= 0 && pow2((2 * b - 2) as nat) >= 1,
    ;
    assert(l * (k + 1) * n * key_units * pow2((2 * b - 2) as nat) == l * ((k + 1) * n)
        * key_units * pow2((2 * b - 2) as nat)) by (nonlinear_arith);
    assert((k + 1) * n * pow2((126 - 2 * l * b) as nat) == ((k + 1) * n) * pow2(
        (126 - 2 * l * b) as nat,
    )) by (nonlinear_arith);
}

/// `r` is the integer square root of `n`: the largest integer whose square
/// does not exceed `n`.
pub open spec fn is_sqrt(n: int, r: int) -> bool {
    &&& 0 <= r
    &&& r * r <= n
    &&& n < (r + 1) * (r + 1)
}

/// The integer square root, as a specification-level function.
pub closed spec fn sqrt_floor(n: int) -> int {
    choose|r: int| is_sqrt(n, r)
}

/// An integer square root exists for every non-negative integer.
proof fn lemma_sqrt_exists(n: int) -> (r: int)
    requires
        n >= 0,
    ensures
        is_sqrt(n, r),
    decreases n,
{
    if n == 0 {
        assert(is_sqrt(0, 0));
        0
    } else {
        let p = lemma_sqrt_exists(n - 1);
        if n < (p + 1) * (p + 1) {
            assert(p * p <= n - 1 <= n);
            assert(is_sqrt(n, p));
            p
        } else {
            assert(n == (p + 1) * (p + 1));
            assert(n < (p + 2) * (p + 2)) by (nonlinear_arith)
                requires
                    p >= 0 && n == (p + 1) * (p + 1),
            ;
            assert(is_sqrt(n, p + 1));
            p + 1
        }
    }
}

/// The integer square root is unique.
pub proof fn lemma_sqrt_unique(n: int, r1: int, r2: int)
    requires
        is_sqrt(n, r1),
        is_sqrt(n, r2),
    ensures
        r1 == r2,
{
    if r1 < r2 {
        assert((r1 + 1) * (r1 + 1) <= r2 * r2) by (nonlinear_arith)
            requires
                0 <= r1 && r1 < r2,
        ;
    }
    if r2 < r1 {
        assert((r2 + 1) * (r2 + 1) <= r1 * r1) by (nonlinear_arith)
            requires
                0 <= r2 && r2 < r1,
        ;
    }
}

/// `sqrt_floor` satisfies its defining property, and nothing else does.
pub proof fn lemma_sqrt_floor(n: int)
    requires
        n >= 0,
    ensures
        is_sqrt(n, sqrt_floor(n)),
        forall|r: int| is_sqrt(n, r) ==> r == sqrt_floor(n),
{
    let w = lemma_sqrt_exists(n);
    assert(is_sqrt(n, w));
    assert(is_sqrt(n, sqrt_floor(n)));
    assert forall|r: int| is_sqrt(n, r) implies r == sqrt_floor(n) by {
        lemma_sqrt_unique(n, r, sqrt_floor(n));
    }
}

/// Computes the integer square root by binary search.
pub fn isqrt_u128(n: u128) -> (r: u64)
    ensures
        r as int == sqrt_floor(n as int),
        is_sqrt(n as int, r as int),
{
    let mut lo: u128 = 0;
    let mut hi: u128 = 0x1_0000_0000_0000_0000;
    proof {
        assert((0x1_0000_0000_0000_0000 as int) * (0x1_0000_0000_0000_0000 as int)
            > u128::MAX) by (nonlinear_arith);
    }
    while lo + 1 < hi
        invariant
            lo < hi <= 0x1_0000_0000_0000_0000,
            lo * lo <= n as int,
            (n as int) < hi * hi,
        decreases hi - lo,
    {
        let mid = lo + (hi - lo) / 2;
        assert(lo < mid < hi);
        assert(mid * mid <= u128::MAX) by (nonlinear_arith)
            requires
                0 <= mid && mid <= 0xffff_ffff_ffff_ffff_u128,
        ;
        if mid * mid <= n {
            lo = mid;
        } else {
            hi = mid;
        }
    }
    proof {
        lemma_sqrt_floor(n as int);
        lemma_sqrt_unique(n as int, lo as int, sqrt_floor(n as int));
    }
    lo as u64
}

/// The integer spread of the error sampler that realizes a requested
/// variance on a torus of `2^width` elements: the floor of
/// `standard deviation * 2^width`.
pub open spec fn noise_spread(v: Variance, width: nat) -> int {
    sqrt_floor((v.units as int) / pow2((128 - 2 * width) as nat) as int)
}

/// Converts a variance into the integer spread used by the error sampler
/// on a torus of `2^width` elements.
pub fn spread_of_variance(v: Variance, width: u32) -> (r: u64)
    requires
        0 < width <= 64,
    ensures
        r as int == noise_spread(v, width as nat),
{
    let shift: u32 = 128 - 2 * width;
    let scaled = if shift == 0 {
        proof {
            lemma2_to64();
            assert(pow2(0) == 1);
            assert((v.units as int) / 1 == v.units as int);
        }
        v.units
    } else {
        proof {
            vstd::bits::lemma_u128_shr_is_div(v.units, shift as u128);
            vstd::arithmetic::power2::lemma_pow2_pos(shift as nat);
            vstd::arithmetic::div_mod::lemma_div_is_div_recursive(
                v.units as int,
                pow2(shift as nat) as int,
            );
        }
        v.units >> (shift as u128)
    };
    assert(scaled as int == (v.units as int) / pow2((128 - 2 * width) as nat) as int);
    isqrt_u128(scaled)
}

} // verus!
