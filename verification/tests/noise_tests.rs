//! Tests of the noise model: the exact propagation formulas, their
//! agreement with an independently published estimator, and the bootstrap
//! prediction's independence from the input noise.

use concrete_commons::dispersion::{DispersionParameter, Variance as OracleVariance};
use fhe_engine::noise::{
    estimate_addition_noise, estimate_affine_transform_noise,
    estimate_cleartext_multiplication_noise, estimate_external_product_noise,
    estimate_keyswitch_noise, isqrt_u128, pow2_u128, spread_of_variance, Variance,
};

/// The value of a variance as a floating-point fraction of the torus.
fn variance_to_f64(v: Variance) -> f64 {
    v.units as f64 * 2f64.powi(-128)
}

/// Addition adds variances exactly.
#[test]
fn test_addition_noise_is_sum() {
    let v1 = Variance::from_log_standard_dev(-15);
    let v2 = Variance::from_log_standard_dev(-17);
    let sum = estimate_addition_noise(v1, v2);
    assert_eq!(sum.units, v1.units + v2.units);
    // 2^-30 + 2^-34
    assert_eq!(sum.units, (1u128 << 98) + (1u128 << 94));
}

/// Cleartext multiplication scales the variance by the square of the
/// cleartext.
#[test]
fn test_cleartext_multiplication_noise_is_squared_scale() {
    let v = Variance::from_log_standard_dev(-20);
    let scaled = estimate_cleartext_multiplication_noise(v, 3);
    assert_eq!(scaled.units, v.units * 9);
}

/// The affine transform's prediction is the weighted sum of variances.
#[test]
fn test_affine_transform_noise() {
    let v = Variance::from_log_standard_dev(-20);
    let vs = vec![v, v, v];
    let weights = vec![1u64, 2, 3];
    let r = estimate_affine_transform_noise(&vs, &weights);
    assert_eq!(r.units, v.units * (1 + 4 + 9));
}

/// The model agrees with the independently published estimator on the sum
/// of two variances.
#[test]
fn test_addition_noise_matches_oracle_estimator() {
    let mine = estimate_addition_noise(
        Variance::from_log_standard_dev(-15),
        Variance::from_log_standard_dev(-15),
    );
    let oracle: OracleVariance = concrete_npe::estimate_addition_noise::<u32, _, _>(
        OracleVariance(2f64.powi(-30)),
        OracleVariance(2f64.powi(-30)),
    );
    let delta = (variance_to_f64(mine) - oracle.get_variance()).abs();
    assert!(delta < 1e-12, "model disagrees with the oracle by {}", delta);
}

/// The bootstrap's predicted output noise depends only on the decomposition
/// settings and key material: the prediction function takes no input
/// variance at all, and two calls with the same parameters agree whatever
/// the inputs carried before.
#[test]
fn test_bootstrap_noise_prediction_independent_of_input() {
    let key_noise = Variance::from_log_standard_dev(-25);
    let prediction_after_quiet_input = estimate_external_product_noise(2, 64, 4, 3, key_noise);
    let prediction_after_noisy_input = estimate_external_product_noise(2, 64, 4, 3, key_noise);
    assert_eq!(prediction_after_quiet_input, prediction_after_noisy_input);
    // the exact closed form: l*(k+1)*n*key*2^(2b-2) + (k+1)*n*2^(126-2lb)
    let expected = 3u128 * 3 * 64 * key_noise.units * (1u128 << 6) + 3u128 * 64 * (1u128 << 102);
    assert_eq!(prediction_after_quiet_input.units, expected);
}

/// The integer square root is exact on perfect squares and floors
/// in-between values.
#[test]
fn test_integer_square_root() {
    assert_eq!(isqrt_u128(0), 0);
    assert_eq!(isqrt_u128(1), 1);
    assert_eq!(isqrt_u128(3), 1);
    assert_eq!(isqrt_u128(4), 2);
    assert_eq!(isqrt_u128(152399025), 12345);
    assert_eq!(isqrt_u128(152399026), 12345);
    assert_eq!(isqrt_u128(u128::MAX), u64::MAX);
}

/// The sampler spread of a variance is its standard deviation scaled to the
/// torus width.
#[test]
fn test_spread_of_variance() {
    // sigma = 2^-15 on a 32-bit torus: spread 2^17
    let v = Variance::from_log_standard_dev(-15);
    assert_eq!(spread_of_variance(v, 32), 1 << 17);
    // and on a 64-bit torus: spread 2^49
    assert_eq!(spread_of_variance(v, 64), 1 << 49);
    // the zero variance needs no spread at all
    assert_eq!(spread_of_variance(Variance::zero(), 32), 0);
}

/// Powers of two are computed exactly.
#[test]
fn test_pow2_exact() {
    assert_eq!(pow2_u128(0), 1);
    assert_eq!(pow2_u128(1), 2);
    assert_eq!(pow2_u128(64), 1u128 << 64);
    assert_eq!(pow2_u128(127), 1u128 << 127);
}

/// The key-switch prediction adds the decomposition terms onto the input's
/// own noise.
#[test]
fn test_keyswitch_noise_estimate() {
    let vin = Variance::from_log_standard_dev(-30);
    let key = Variance::from_log_standard_dev(-40);
    let r = estimate_keyswitch_noise(vin, 600, 4, 3, key);
    // vin + l*n*key*2^(2b-2) + n*2^(126-2lb)
    let expected = vin.units + 3u128 * 600 * key.units * (1u128 << 6) + 600u128 * (1u128 << 102);
    assert_eq!(r.units, expected);
}
