//! Tests of the LWE algebra: the additive-homomorphism scenario with its
//! statistical check, the fusing/discarding agreement, trivial-encryption
//! exactness, views, and the error reporting of the checked entries.

use fhe_engine::engine::{
    CoreEngine, LweCiphertextDiscardingAdditionError, LweCiphertextVectorDiscardingAdditionError,
};
use fhe_engine::lwe::{LweCiphertext, LweSecretKey};
use fhe_engine::noise::Variance;
use fhe_engine::params::{LweCiphertextCount, LweDimension, LweSize};
use fhe_engine::plaintext::{Cleartext, CleartextVector, Plaintext};
use fhe_engine::random::RandomSource;
use fhe_engine::seeders::{ExternalLibSeeder, Seed, Seeder};
use fhe_engine::vector::LweCiphertextVector;
use fhe_engine::view::{discard_add_lwe_ciphertext_view, decrypt_lwe_ciphertext_view,
    LweCiphertextView};

fn fresh_engine() -> CoreEngine {
    let mut seeder = ExternalLibSeeder;
    CoreEngine::new(seeder.seed())
}

/// The concrete scenario: LWE dimension 600, 32-bit torus, noise standard
/// deviation `2^-15`; encrypt `3 << 20` and `7 << 20` under one key, add
/// with the discarding addition, decrypt, and expect the recovered value
/// within one encoding unit of `10 << 20`. Across 1000 repetitions the
/// empirical standard deviation of the residual must match `sqrt(2)` times
/// the requested one.
#[test]
fn test_discarding_addition_scenario() {
    let mut engine = fresh_engine();
    let lwe_dimension = LweDimension(600);
    let noise = Variance::from_log_standard_dev(-15);
    let key: LweSecretKey<u32> = engine.create_lwe_secret_key(lwe_dimension);
    let input_1 = 3u32 << 20;
    let input_2 = 7u32 << 20;
    let expected = 10u32 << 20;

    let mut residuals: Vec<f64> = Vec::new();
    for _ in 0..1000 {
        let plaintext_1 = engine.create_plaintext(&input_1);
        let plaintext_2 = engine.create_plaintext(&input_2);
        let ciphertext_1 = engine.encrypt_lwe_ciphertext(&key, &plaintext_1, noise);
        let ciphertext_2 = engine.encrypt_lwe_ciphertext(&key, &plaintext_2, noise);
        let mut ciphertext_3 = engine.zero_encrypt_lwe_ciphertext(&key, noise);
        engine
            .discard_add_lwe_ciphertext(&mut ciphertext_3, &ciphertext_1, &ciphertext_2)
            .unwrap();
        let decrypted = engine.decrypt_lwe_ciphertext(&key, &ciphertext_3);
        let residual = decrypted.0.wrapping_sub(expected);
        let signed = if residual > u32::MAX / 2 {
            residual as f64 - 2f64.powi(32)
        } else {
            residual as f64
        };
        assert!(
            signed.abs() < 2f64.powi(20),
            "recovered value off by {} units",
            signed
        );
        residuals.push(signed / 2f64.powi(32));
    }
    let mean = residuals.iter().sum::<f64>() / residuals.len() as f64;
    let var = residuals.iter().map(|r| (r - mean) * (r - mean)).sum::<f64>()
        / residuals.len() as f64;
    let measured = var.sqrt();
    let predicted = 2f64.sqrt() * 2f64.powi(-15);
    assert!(
        0.75 * predicted <= measured && measured <= 1.25 * predicted,
        "measured std dev {} too far from predicted {}",
        measured,
        predicted
    );
}

/// Fusing and discarding additions of the same operands produce the same
/// ciphertext, bit for bit.
#[test]
fn test_fusing_discarding_addition_agree() {
    let mut engine = fresh_engine();
    let key: LweSecretKey<u64> = engine.create_lwe_secret_key(LweDimension(40));
    let noise = Variance::from_log_standard_dev(-25);
    let a = engine.encrypt_lwe_ciphertext(&key, &Plaintext(11u64 << 50), noise);
    let b = engine.encrypt_lwe_ciphertext(&key, &Plaintext(5u64 << 50), noise);

    let mut discarding = LweCiphertext::allocate(LweSize(41));
    engine.discard_add_lwe_ciphertext(&mut discarding, &a, &b).unwrap();

    let mut fusing = a.clone();
    engine.fuse_add_lwe_ciphertext(&mut fusing, &b).unwrap();

    assert_eq!(discarding.mask, fusing.mask);
    assert_eq!(discarding.body, fusing.body);
}

/// A trivial encryption decrypts exactly, under every key, with zero noise.
#[test]
fn test_trivial_encryption_exact() {
    let mut engine = fresh_engine();
    for value in [0u32, 1, 3 << 20, u32::MAX] {
        for dim in [1usize, 2, 600] {
            let key: LweSecretKey<u32> = engine.create_lwe_secret_key(LweDimension(dim));
            let ct = engine.trivially_encrypt_lwe_ciphertext(
                LweSize(dim + 1),
                &Plaintext(value),
            );
            let decrypted = engine.decrypt_lwe_ciphertext(&key, &ct);
            assert_eq!(decrypted.0, value);
        }
    }
}

/// Operations through views agree with operations on owned copies of the
/// same buffers.
#[test]
fn test_view_owned_equivalence() {
    let mut engine = fresh_engine();
    let key: LweSecretKey<u32> = engine.create_lwe_secret_key(LweDimension(30));
    let noise = Variance::from_log_standard_dev(-20);
    let a = engine.encrypt_lwe_ciphertext(&key, &Plaintext(9u32 << 24), noise);
    let b = engine.encrypt_lwe_ciphertext(&key, &Plaintext(2u32 << 24), noise);

    // flatten into caller-owned buffers, as the view API works on
    let mut buf_a: Vec<u32> = a.mask.clone();
    buf_a.push(a.body);
    let mut buf_b: Vec<u32> = b.mask.clone();
    buf_b.push(b.body);

    let view_a = LweCiphertextView::from_container(&buf_a[..]);
    let dec_view = decrypt_lwe_ciphertext_view(&key, &view_a);
    let dec_owned = engine.decrypt_lwe_ciphertext(&key, &a);
    assert_eq!(dec_view.0, dec_owned.0);

    let mut out_buf: Vec<u32> = vec![0u32; 31];
    {
        let view_a = LweCiphertextView::from_container(&buf_a[..]);
        let view_b = LweCiphertextView::from_container(&buf_b[..]);
        discard_add_lwe_ciphertext_view(&mut out_buf, &view_a, &view_b);
    }
    let mut owned_out = LweCiphertext::allocate(LweSize(31));
    engine.discard_add_lwe_ciphertext(&mut owned_out, &a, &b).unwrap();
    let mut owned_flat = owned_out.mask.clone();
    owned_flat.push(owned_out.body);
    assert_eq!(out_buf, owned_flat);
}

/// Cleartext multiplication scales the encrypted value.
#[test]
fn test_cleartext_multiplication() {
    let mut engine = fresh_engine();
    let key: LweSecretKey<u64> = engine.create_lwe_secret_key(LweDimension(80));
    let noise = Variance::from_log_standard_dev(-30);
    let ct = engine.encrypt_lwe_ciphertext(&key, &Plaintext(3u64 << 40), noise);
    let mut scaled = LweCiphertext::allocate(LweSize(81));
    engine
        .discard_mul_lwe_ciphertext_cleartext(&mut scaled, &ct, &Cleartext(5u64))
        .unwrap();
    let decrypted = engine.decrypt_lwe_ciphertext(&key, &scaled);
    let residual = decrypted.0.wrapping_sub(15u64 << 40) as i64;
    assert!(residual.abs() < 1 << 42, "residual {}", residual);
}

/// The discarding affine transform computes the weighted sum plus bias.
#[test]
fn test_affine_transform() {
    let mut engine = fresh_engine();
    let key: LweSecretKey<u64> = engine.create_lwe_secret_key(LweDimension(50));
    let noise = Variance::from_log_standard_dev(-30);
    let values: [u64; 3] = [1u64 << 40, 2u64 << 40, 3u64 << 40];
    let weights: [u64; 3] = [4, 5, 6];
    let bias = 7u64 << 40;
    let mut cts: Vec<LweCiphertext<u64>> = Vec::new();
    for v in values {
        cts.push(engine.encrypt_lwe_ciphertext(&key, &Plaintext(v), noise));
    }
    let vector = LweCiphertextVector { cts, lwe_size: LweSize(51) };
    let weight_vector = CleartextVector::from_container(weights.to_vec());
    let mut out = LweCiphertext::allocate(LweSize(51));
    engine
        .discard_affine_transform_lwe_ciphertext_vector(
            &mut out,
            &vector,
            &weight_vector,
            &Plaintext(bias),
        )
        .unwrap();
    let decrypted = engine.decrypt_lwe_ciphertext(&key, &out);
    let expected = (1u64 * 4 + 2 * 5 + 3 * 6 + 7) << 40;
    let residual = decrypted.0.wrapping_sub(expected) as i64;
    assert!(residual.abs() < 1 << 44, "residual {}", residual);
}

/// The checked entries reject mismatched dimensions with the named kind and
/// leave the output untouched.
#[test]
fn test_checked_entry_rejects_dimension_mismatch() {
    let mut engine = fresh_engine();
    let key: LweSecretKey<u32> = engine.create_lwe_secret_key(LweDimension(10));
    let noise = Variance::from_log_standard_dev(-20);
    let a = engine.encrypt_lwe_ciphertext(&key, &Plaintext(1u32 << 25), noise);
    let b = engine.encrypt_lwe_ciphertext(&key, &Plaintext(2u32 << 25), noise);
    let mut wrong = LweCiphertext::allocate(LweSize(12));
    let before = wrong.clone();
    let r = engine.discard_add_lwe_ciphertext(&mut wrong, &a, &b);
    assert_eq!(r, Err(LweCiphertextDiscardingAdditionError::LweDimensionMismatch));
    assert_eq!(wrong.mask, before.mask);
    assert_eq!(wrong.body, before.body);
}

/// The vector addition reports count mismatches separately from dimension
/// mismatches.
#[test]
fn test_vector_addition_count_mismatch() {
    let mut engine = fresh_engine();
    let a: LweCiphertextVector<u32> =
        LweCiphertextVector::trivial_encrypt_zeros(LweDimension(5), LweCiphertextCount(3));
    let b: LweCiphertextVector<u32> =
        LweCiphertextVector::trivial_encrypt_zeros(LweDimension(5), LweCiphertextCount(4));
    let mut out: LweCiphertextVector<u32> =
        LweCiphertextVector::trivial_encrypt_zeros(LweDimension(5), LweCiphertextCount(3));
    let r = engine.discard_add_lwe_ciphertext_vector(&mut out, &a, &b);
    assert_eq!(
        r,
        Err(LweCiphertextVectorDiscardingAdditionError::CiphertextCountMismatch)
    );
}

/// The vector addition adds slot by slot.
#[test]
fn test_vector_addition_values() {
    let mut engine = fresh_engine();
    let key: LweSecretKey<u32> = engine.create_lwe_secret_key(LweDimension(20));
    let noise = Variance::from_log_standard_dev(-20);
    let raw1: [u32; 2] = [5u32 << 24, 6u32 << 24];
    let raw2: [u32; 2] = [1u32 << 24, 2u32 << 24];
    let mut cts1: Vec<LweCiphertext<u32>> = Vec::new();
    let mut cts2: Vec<LweCiphertext<u32>> = Vec::new();
    for i in 0..2 {
        cts1.push(engine.encrypt_lwe_ciphertext(&key, &Plaintext(raw1[i]), noise));
        cts2.push(engine.encrypt_lwe_ciphertext(&key, &Plaintext(raw2[i]), noise));
    }
    let v1 = LweCiphertextVector { cts: cts1, lwe_size: LweSize(21) };
    let v2 = LweCiphertextVector { cts: cts2, lwe_size: LweSize(21) };
    let mut out: LweCiphertextVector<u32> =
        LweCiphertextVector::trivial_encrypt_zeros(LweDimension(20), LweCiphertextCount(2));
    engine.discard_add_lwe_ciphertext_vector(&mut out, &v1, &v2).unwrap();
    for i in 0..2 {
        let decrypted = engine.decrypt_lwe_ciphertext(&key, &out.cts[i]);
        let expected = raw1[i].wrapping_add(raw2[i]);
        let residual = decrypted.0.wrapping_sub(expected);
        let signed = if residual > u32::MAX / 2 {
            residual as i64 - (1i64 << 32)
        } else {
            residual as i64
        };
        assert!(signed.abs() < 1 << 22, "residual {}", signed);
    }
}

/// Subtraction and negation recover the expected values.
#[test]
fn test_subtraction_and_opposite() {
    let mut engine = fresh_engine();
    let key: LweSecretKey<u32> = engine.create_lwe_secret_key(LweDimension(100));
    let noise = Variance::from_log_standard_dev(-20);
    let a = engine.encrypt_lwe_ciphertext(&key, &Plaintext(9u32 << 24), noise);
    let b = engine.encrypt_lwe_ciphertext(&key, &Plaintext(4u32 << 24), noise);
    let mut diff = LweCiphertext::allocate(LweSize(101));
    engine.discard_sub_lwe_ciphertext(&mut diff, &a, &b).unwrap();
    let got = engine.decrypt_lwe_ciphertext(&key, &diff).0;
    let residual = got.wrapping_sub(5u32 << 24);
    let signed = if residual > u32::MAX / 2 {
        residual as i64 - (1i64 << 32)
    } else {
        residual as i64
    };
    assert!(signed.abs() < 1 << 22, "residual {}", signed);

    let mut opp = LweCiphertext::allocate(LweSize(101));
    engine.discard_opp_lwe_ciphertext(&mut opp, &a).unwrap();
    let got = engine.decrypt_lwe_ciphertext(&key, &opp).0;
    let residual = got.wrapping_sub(0u32.wrapping_sub(9u32 << 24));
    let signed = if residual > u32::MAX / 2 {
        residual as i64 - (1i64 << 32)
    } else {
        residual as i64
    };
    assert!(signed.abs() < 1 << 22, "residual {}", signed);
}

/// Fusing plaintext subtraction shifts the encrypted value without adding
/// noise.
#[test]
fn test_plaintext_fusing_subtraction() {
    let mut engine = fresh_engine();
    let key: LweSecretKey<u32> = engine.create_lwe_secret_key(LweDimension(600));
    let noise = Variance::from_log_standard_dev(-15);
    let mut ct = engine.encrypt_lwe_ciphertext(&key, &Plaintext(9u32 << 24), noise);
    engine.fuse_sub_lwe_ciphertext_plaintext(&mut ct, &Plaintext(2u32 << 24));
    let got = engine.decrypt_lwe_ciphertext(&key, &ct).0;
    let residual = got.wrapping_sub(7u32 << 24);
    let signed = if residual > u32::MAX / 2 {
        residual as i64 - (1i64 << 32)
    } else {
        residual as i64
    };
    assert!(signed.abs() < 1 << 21, "residual {}", signed);
}

/// Seeds mix by bitwise exclusive or.
#[test]
fn test_seed_mixing() {
    let s = fhe_engine::seeders::mix_seed_material(0xf0f0, 0x0ff0, 0x00ff);
    assert_eq!(s.0, 0xf0f0 ^ 0x0ff0 ^ 0x00ff);
    let _ = Seed(0);
}

/// The engine's generator is deterministic per seed: two engines with one
/// seed draw the same key.
#[test]
fn test_engine_determinism() {
    let mut e1 = CoreEngine::new(Seed(42));
    let mut e2 = CoreEngine::new(Seed(42));
    let k1: LweSecretKey<u64> = e1.create_lwe_secret_key(LweDimension(64));
    let k2: LweSecretKey<u64> = e2.create_lwe_secret_key(LweDimension(64));
    assert_eq!(k1.coeffs, k2.coeffs);
    let mut source = RandomSource::new(Seed(7));
    let below = source.random_below(10);
    assert!(below < 10);
}
