//! Tests of the gadget decomposition and of key-switching end to end: the
//! digits have their exact values, and a switched ciphertext decrypts under
//! the output key to the value encrypted under the input key.

use fhe_engine::decomposition::decompose_torus;
use fhe_engine::engine::CoreEngine;
use fhe_engine::fixture::{
    GlweSecretKeyCreationFixture, LweCiphertextDiscardingSubtractionFixture,
    LweCiphertextPlaintextFusingSubtractionFixture, LweCiphertextVectorDiscardingAdditionFixture,
};
use fhe_engine::keyswitch::{discard_keyswitch_lwe_ciphertext, LweKeyswitchKey};
use fhe_engine::lwe::{LweCiphertext, LweSecretKey};
use fhe_engine::noise::Variance;
use fhe_engine::params::{
    DecompositionBaseLog, DecompositionLevelCount, LweDimension, LweSize, PolynomialSize,
};
use fhe_engine::plaintext::Plaintext;
use fhe_engine::random::RandomSource;
use fhe_engine::seeders::{ExternalLibSeeder, Seed, Seeder};
use fhe_engine::glwe::{GlweCiphertext, GlweSecretKey};
use fhe_engine::packing::{discard_packing_keyswitch_lwe_ciphertext_vector, PackingKeyswitchKey};
use fhe_engine::params::{GlweDimension, GlweSize};
use fhe_engine::vector::LweCiphertextVector;

/// The digits of a decomposition are the top bits, most significant digit
/// first.
#[test]
fn test_decomposition_digits_exact() {
    // 0xABCD_0000 in base 2^4, 4 levels: digits A, B, C, D
    let digits = decompose_torus(0xABCD_0000u32, DecompositionBaseLog(4),
        DecompositionLevelCount(4));
    assert_eq!(digits, vec![0xA, 0xB, 0xC, 0xD]);

    let digits = decompose_torus(
        0xFF00_0000_0000_0000u64,
        DecompositionBaseLog(8),
        DecompositionLevelCount(2),
    );
    assert_eq!(digits, vec![0xFF, 0x00]);
}

/// A full-width decomposition recomposes exactly.
#[test]
fn test_decomposition_recomposes() {
    let x = 0x1234_5678u32;
    let digits = decompose_torus(x, DecompositionBaseLog(8), DecompositionLevelCount(4));
    let mut recomposed: u32 = 0;
    for (i, d) in digits.iter().enumerate() {
        recomposed = recomposed.wrapping_add((*d as u32) << (32 - (i + 1) * 8));
    }
    assert_eq!(recomposed, x);
}

/// Key-switching re-encrypts under the output key: decrypting the switched
/// ciphertext under the output key recovers the encrypted value.
#[test]
fn test_keyswitch_round_trip() {
    let mut seeder = ExternalLibSeeder;
    let mut engine = CoreEngine::new(seeder.seed());
    let mut gen = RandomSource::new(seeder.seed());
    let input_key: LweSecretKey<u64> = engine.create_lwe_secret_key(LweDimension(300));
    let output_key: LweSecretKey<u64> = engine.create_lwe_secret_key(LweDimension(200));
    let base_log = DecompositionBaseLog(8);
    let level = DecompositionLevelCount(5);
    let key_noise = Variance::from_log_standard_dev(-40);
    let ksk: LweKeyswitchKey<u64> = LweKeyswitchKey::generate(
        &input_key,
        &output_key,
        base_log,
        level,
        key_noise,
        &mut gen,
    );

    let value = 13u64 << 56;
    let ct_noise = Variance::from_log_standard_dev(-30);
    let ct = engine.encrypt_lwe_ciphertext(&input_key, &Plaintext(value), ct_noise);
    let mut switched: LweCiphertext<u64> = LweCiphertext::allocate(LweSize(201));
    discard_keyswitch_lwe_ciphertext(&mut switched, &ct, &ksk);
    let decrypted = engine.decrypt_lwe_ciphertext(&output_key, &switched);
    let residual = decrypted.0.wrapping_sub(value) as i64;
    assert!(
        residual.abs() < 1i64 << 50,
        "key switch drifted by {}",
        residual
    );
}

/// Switching a trivial ciphertext with a zero-noise key is exact: the
/// trivial mask has no digits to accumulate.
#[test]
fn test_keyswitch_trivial_is_exact() {
    let mut seeder = ExternalLibSeeder;
    let mut engine = CoreEngine::new(seeder.seed());
    let mut gen = RandomSource::new(seeder.seed());
    let input_key: LweSecretKey<u32> = engine.create_lwe_secret_key(LweDimension(20));
    let output_key: LweSecretKey<u32> = engine.create_lwe_secret_key(LweDimension(10));
    let ksk: LweKeyswitchKey<u32> = LweKeyswitchKey::generate(
        &input_key,
        &output_key,
        DecompositionBaseLog(8),
        DecompositionLevelCount(4),
        Variance::zero(),
        &mut gen,
    );
    let value = 77u32 << 20;
    let ct = engine.trivially_encrypt_lwe_ciphertext(LweSize(21), &Plaintext(value));
    let mut switched: LweCiphertext<u32> = LweCiphertext::allocate(LweSize(11));
    discard_keyswitch_lwe_ciphertext(&mut switched, &ct, &ksk);
    let decrypted = engine.decrypt_lwe_ciphertext(&output_key, &switched);
    assert_eq!(decrypted.0, value);
}

/// The fixtures hand the oracle the documented parameter sets and noise
/// predictions.
#[test]
fn test_fixture_parameters_and_criteria() {
    let glwe_params = GlweSecretKeyCreationFixture::generate_parameters_iterator();
    assert_eq!(glwe_params.len(), 2);
    assert_eq!(glwe_params[0].glwe_dimension.0, 200);
    assert_eq!(glwe_params[0].polynomial_size, PolynomialSize(256));
    assert_eq!(glwe_params[1].glwe_dimension.0, 1);

    let sub_params = LweCiphertextDiscardingSubtractionFixture::generate_parameters_iterator();
    assert_eq!(sub_params.len(), 1);
    assert_eq!(sub_params[0].lwe_dimension.0, 600);
    assert_eq!(sub_params[0].noise, Variance::from_log_standard_dev(-15));
    let crit = LweCiphertextDiscardingSubtractionFixture::compute_criteria(&sub_params[0]);
    assert_eq!(crit.units, 2 * sub_params[0].noise.units);

    let fuse_params =
        LweCiphertextPlaintextFusingSubtractionFixture::generate_parameters_iterator();
    assert_eq!(fuse_params.len(), 1);
    let crit = LweCiphertextPlaintextFusingSubtractionFixture::compute_criteria(&fuse_params[0]);
    assert_eq!(crit, fuse_params[0].noise);

    let vec_params = LweCiphertextVectorDiscardingAdditionFixture::generate_parameters_iterator();
    assert_eq!(vec_params.len(), 2);
    assert_eq!(vec_params[0].lwe_ciphertext_count.0, 1);
    assert_eq!(vec_params[1].lwe_ciphertext_count.0, 100);
    let crit = LweCiphertextVectorDiscardingAdditionFixture::compute_criteria(&vec_params[0]);
    assert_eq!(crit.units, 2 * vec_params[0].noise.units);
    let _ = Seed(0);
}

/// Packing key-switching folds LWE ciphertexts into one GLWE ciphertext,
/// one coefficient slot per input: decrypting the fold recovers every
/// encrypted value in its slot.
#[test]
fn test_packing_keyswitch_round_trip() {
    let mut seeder = ExternalLibSeeder;
    let mut engine = CoreEngine::new(seeder.seed());
    let mut gen = RandomSource::new(seeder.seed());
    let input_key: LweSecretKey<u64> = engine.create_lwe_secret_key(LweDimension(40));
    let output_key: GlweSecretKey<u64> =
        engine.create_glwe_secret_key(GlweDimension(1), PolynomialSize(16));
    let pksk: PackingKeyswitchKey<u64> = PackingKeyswitchKey::generate(
        &input_key,
        &output_key,
        DecompositionBaseLog(8),
        DecompositionLevelCount(7),
        Variance::from_log_standard_dev(-50),
        &mut gen,
    );

    let values: Vec<u64> = (1..=4u64).map(|x| x << 56).collect();
    let ct_noise = Variance::from_log_standard_dev(-30);
    let mut cts: Vec<LweCiphertext<u64>> = Vec::new();
    for v in values.iter() {
        cts.push(engine.encrypt_lwe_ciphertext(&input_key, &Plaintext(*v), ct_noise));
    }
    let inputs = LweCiphertextVector { cts, lwe_size: LweSize(41) };
    let mut packed: GlweCiphertext<u64> =
        GlweCiphertext::allocate(PolynomialSize(16), GlweSize(2));
    discard_packing_keyswitch_lwe_ciphertext_vector(&mut packed, &inputs, &pksk);

    let decrypted = engine.decrypt_glwe_ciphertext(&output_key, &packed);
    for (slot, want) in values.iter().enumerate() {
        let residual = decrypted.coefs[slot].wrapping_sub(*want) as i64;
        assert!(
            residual.abs() < 1i64 << 48,
            "slot {} drifted by {}",
            slot,
            residual
        );
    }
    // slots past the inputs hold noise around zero
    for slot in values.len()..16 {
        let residual = decrypted.coefs[slot] as i64;
        assert!(residual.abs() < 1i64 << 48, "empty slot {} holds {}", slot, residual);
    }
}
