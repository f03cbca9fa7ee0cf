//! Round-trip tests of GLWE encryption and decryption, plain and seeded,
//! over both torus widths: every decrypted coefficient must sit within the
//! sampler's hard error bound of its plaintext, and with enough samples the
//! empirical error spread must match the requested standard deviation.

use fhe_engine::glwe::{GlweCiphertext, GlweList, GlweSecretKey, GlweSeededCiphertext};
use fhe_engine::noise::Variance;
use fhe_engine::params::{CiphertextCount, GlweDimension, GlweSize, PolynomialSize};
use fhe_engine::plaintext::PlaintextList;
use fhe_engine::random::RandomSource;
use fhe_engine::seeders::{ExternalLibSeeder, Seed, Seeder};
use fhe_engine::torus::TorusElement;

/// Torus distance between two elements, as a fraction of the torus.
fn torus_distance<T: TorusElement>(a: T, b: T, width: u32) -> f64 {
    let d = a.wsub(b).to_u128();
    let m = 2f64.powi(width as i32);
    let df = d as f64;
    let dist = if 2.0 * df <= m { df } else { m - df };
    dist / m
}

/// Asserts that every decrypted value sits within the sampler's hard bound
/// of its plaintext, and, when there are enough samples for the estimate to
/// be stable, that the empirical standard deviation matches `std_dev`.
fn assert_delta_std_dev<T: TorusElement>(
    plaintexts: &[T],
    decryptions: &[T],
    std_dev: f64,
    width: u32,
) {
    assert_eq!(plaintexts.len(), decryptions.len());
    let mut sum_sq = 0f64;
    for (&x, &y) in plaintexts.iter().zip(decryptions.iter()) {
        let dist = torus_distance(x, y, width);
        assert!(
            dist <= 6.000001 * std_dev,
            "sample error {} exceeds the sampler bound {}",
            dist,
            6.0 * std_dev
        );
        sum_sq += dist * dist;
    }
    if plaintexts.len() >= 1000 {
        let measured = (sum_sq / plaintexts.len() as f64).sqrt();
        assert!(
            0.5 * std_dev <= measured && measured <= 1.5 * std_dev,
            "measured std dev {} too far from requested {}",
            measured,
            std_dev
        );
    }
}

fn random_plaintexts<T: TorusElement>(gen: &mut RandomSource, count: usize) -> Vec<T> {
    let mut v: Vec<T> = Vec::new();
    for _ in 0..count {
        v.push(gen.random_torus());
    }
    v
}

fn test_glwe<T: TorusElement>() {
    // random settings, kept small enough for the exact schoolbook ring
    // arithmetic
    let mut seeder = ExternalLibSeeder;
    let mut random_generator = RandomSource::new(seeder.seed());
    let mut secret_generator = RandomSource::new(seeder.seed());
    let mut encryption_generator = RandomSource::new(seeder.seed());
    let nb_ct = CiphertextCount(1 + random_generator.random_below(8) as usize);
    let dimension = GlweDimension(1 + random_generator.random_below(8) as usize);
    let polynomial_size = PolynomialSize(2 + random_generator.random_below(63) as usize);
    let noise = Variance::from_log_standard_dev(-20);

    // generates a secret key
    let sk: GlweSecretKey<T> =
        GlweSecretKey::generate_binary(dimension, polynomial_size, &mut secret_generator);

    // generates random plaintexts
    let raw = random_plaintexts::<T>(&mut random_generator, nb_ct.0 * polynomial_size.0);
    let plaintexts = PlaintextList::from_container(raw.clone());

    // encrypts
    let mut ciphertext: GlweList<T> = GlweList::allocate(polynomial_size, dimension, nb_ct);
    sk.encrypt_glwe_list(&mut ciphertext, &plaintexts, noise, &mut encryption_generator);

    // decrypts
    let mut decryptions =
        PlaintextList::from_container(vec![T::zero(); nb_ct.0 * polynomial_size.0]);
    sk.decrypt_glwe_list(&mut decryptions, &ciphertext);

    // test
    assert_delta_std_dev(&raw, &decryptions.coefs, 2f64.powi(-20), T::bits());
}

#[test]
fn test_glwe_encrypt_decrypt_u32() {
    test_glwe::<u32>();
}

#[test]
fn test_glwe_encrypt_decrypt_u64() {
    test_glwe::<u64>();
}

fn test_seeded_glwe<T: TorusElement>() {
    // random settings, kept small enough for the exact schoolbook ring
    // arithmetic
    let mut seeder = ExternalLibSeeder;
    let mut generator = RandomSource::new(seeder.seed());
    let dimension = GlweDimension(1 + generator.random_below(5) as usize);
    let polynomial_size = PolynomialSize(2 + generator.random_below(63) as usize);
    let noise = Variance::from_log_standard_dev(-20);

    // generates a secret key
    let sk: GlweSecretKey<T> =
        GlweSecretKey::generate_binary(dimension, polynomial_size, &mut generator);

    // generates random plaintexts
    let raw = random_plaintexts::<T>(&mut generator, polynomial_size.0);
    let plaintext = PlaintextList::from_container(raw.clone());

    // encrypts from a fresh seed
    let mask_seed = seeder.seed();
    let mut ciphertext: GlweSeededCiphertext<T> =
        GlweSeededCiphertext::allocate(polynomial_size, dimension);
    sk.encrypt_seeded_glwe(&mut ciphertext, &plaintext, noise, mask_seed);

    // expands
    let mut ciphertext_expanded: GlweCiphertext<T> =
        GlweCiphertext::allocate(polynomial_size, GlweSize(dimension.0 + 1));
    ciphertext.expand_into(&mut ciphertext_expanded);

    // decrypts
    let mut decryptions = PlaintextList::from_container(vec![T::zero(); polynomial_size.0]);
    sk.decrypt_glwe(&mut decryptions, &ciphertext_expanded);

    // test
    assert_delta_std_dev(&raw, &decryptions.coefs, 2f64.powi(-20), T::bits());
}

#[test]
fn test_seeded_glwe_u32() {
    test_seeded_glwe::<u32>();
}

#[test]
fn test_seeded_glwe_u64() {
    test_seeded_glwe::<u64>();
}

#[test]
fn test_glwe_trivial_encryption_is_exact() {
    let poly_size = PolynomialSize(8);
    let dimension = GlweDimension(3);
    let mut seeder = ExternalLibSeeder;
    let mut gen = RandomSource::new(seeder.seed());
    let sk: GlweSecretKey<u64> = GlweSecretKey::generate_binary(dimension, poly_size, &mut gen);
    let values: Vec<u64> = vec![1, 2, 3, 4, 5, 6, 7, u64::MAX];
    let plaintexts = PlaintextList::from_container(values.clone());
    let ct: GlweCiphertext<u64> =
        GlweCiphertext::trivial_encrypt(poly_size, GlweSize(dimension.0 + 1), &plaintexts);
    let mut decrypted = PlaintextList::from_container(vec![0u64; poly_size.0]);
    sk.decrypt_glwe(&mut decrypted, &ct);
    assert_eq!(decrypted.coefs, values);
}
