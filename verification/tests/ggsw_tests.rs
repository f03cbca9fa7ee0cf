//! Tests of the external product: against a trivial GGSW encryption of one
//! with a full-width decomposition, the external product is the identity on
//! ciphertexts, bit for bit.

use fhe_engine::engine::CoreEngine;
use fhe_engine::ggsw::{discard_external_product_glwe_ciphertext_ggsw_ciphertext, GgswCiphertext};
use fhe_engine::glwe::{GlweCiphertext, GlweSecretKey};
use fhe_engine::noise::Variance;
use fhe_engine::params::{
    DecompositionBaseLog, DecompositionLevelCount, GlweDimension, GlweSize, PolynomialSize,
};
use fhe_engine::plaintext::PlaintextList;
use fhe_engine::polynomial::Polynomial;
use fhe_engine::seeders::{ExternalLibSeeder, Seeder};

/// A trivial (noiseless, keyless) GGSW encryption of the cleartext one:
/// row (i, j) holds `2^(width - (j+1)*base_log)` in component `i`.
fn trivial_ggsw_of_one(
    k: usize,
    n: usize,
    base_log: usize,
    level: usize,
) -> GgswCiphertext<u32> {
    let mut rows: Vec<GlweCiphertext<u32>> = Vec::new();
    for i in 0..(k + 1) {
        for j in 0..level {
            let shift = 32 - (j + 1) * base_log;
            let gadget = 1u32 << shift;
            let mut mask: Vec<Polynomial<u32>> = Vec::new();
            for t in 0..k {
                let mut coefs = vec![0u32; n];
                if t == i {
                    coefs[0] = gadget;
                }
                mask.push(Polynomial::from_container(coefs));
            }
            let mut body = vec![0u32; n];
            if i == k {
                body[0] = gadget;
            }
            rows.push(GlweCiphertext {
                mask,
                body: Polynomial::from_container(body),
            });
        }
    }
    GgswCiphertext {
        rows,
        glwe_dimension: GlweDimension(k),
        poly_size: PolynomialSize(n),
        decomp_base_log: DecompositionBaseLog(base_log),
        decomp_level_count: DecompositionLevelCount(level),
    }
}

/// With a full-width decomposition, the external product against a trivial
/// GGSW of one reproduces the input ciphertext exactly, mask and body alike.
#[test]
fn test_external_product_identity() {
    let mut seeder = ExternalLibSeeder;
    let mut engine = CoreEngine::new(seeder.seed());
    let k = 2usize;
    let n = 8usize;
    let key: GlweSecretKey<u32> =
        engine.create_glwe_secret_key(GlweDimension(k), PolynomialSize(n));
    let noise = Variance::from_log_standard_dev(-20);
    let values: Vec<u32> = (0..n as u32).map(|x| x << 24).collect();
    let input =
        engine.encrypt_glwe_ciphertext(&key, &PlaintextList::from_container(values), noise);

    // base 2^8, 4 levels: the decomposition covers all 32 bits
    let ggsw = trivial_ggsw_of_one(k, n, 8, 4);
    let mut out: GlweCiphertext<u32> =
        GlweCiphertext::allocate(PolynomialSize(n), GlweSize(k + 1));
    discard_external_product_glwe_ciphertext_ggsw_ciphertext(&mut out, &ggsw, &input);

    for t in 0..k {
        assert_eq!(out.mask[t].coefs, input.mask[t].coefs);
    }
    assert_eq!(out.body.coefs, input.body.coefs);
}

/// With a partial decomposition, the external product against a trivial
/// GGSW of one rounds the input: the result still decrypts to the encoded
/// values within the expected tolerance.
#[test]
fn test_external_product_rounds_and_decrypts() {
    let mut seeder = ExternalLibSeeder;
    let mut engine = CoreEngine::new(seeder.seed());
    let k = 1usize;
    let n = 16usize;
    let key: GlweSecretKey<u32> =
        engine.create_glwe_secret_key(GlweDimension(k), PolynomialSize(n));
    let noise = Variance::from_log_standard_dev(-20);
    let values: Vec<u32> = (1..=n as u32).map(|x| x << 26).collect();
    let input = engine
        .encrypt_glwe_ciphertext(&key, &PlaintextList::from_container(values.clone()), noise);

    // base 2^8, 2 levels: only the top 16 bits survive the decomposition
    let ggsw = trivial_ggsw_of_one(k, n, 8, 2);
    let mut out: GlweCiphertext<u32> =
        GlweCiphertext::allocate(PolynomialSize(n), GlweSize(k + 1));
    discard_external_product_glwe_ciphertext_ggsw_ciphertext(&mut out, &ggsw, &input);

    let decrypted = engine.decrypt_glwe_ciphertext(&key, &out);
    for (got, want) in decrypted.coefs.iter().zip(values.iter()) {
        let residual = got.wrapping_sub(*want);
        let signed = if residual > u32::MAX / 2 {
            residual as i64 - (1i64 << 32)
        } else {
            residual as i64
        };
        // rounding error: up to (k*n + 1) units of 2^16 from the dropped
        // digits, plus the encryption noise
        assert!(signed.abs() < 1 << 22, "residual {}", signed);
    }
}
