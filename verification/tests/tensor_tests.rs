//! Tests of the secret-key tensor product: the mismatch rejections with
//! their exact kinds, and the product's values on keys small enough to
//! multiply by hand.

use fhe_engine::engine::CoreEngine;
use fhe_engine::glwe::GlweSecretKey;
use fhe_engine::params::{GlweDimension, PolynomialSize};
use fhe_engine::polynomial::Polynomial;
use fhe_engine::seeders::Seed;
use fhe_engine::tensor::{
    TensorProductGlweSecretKeyCreationEngine, TensorProductGlweSecretKeyCreationError,
};

fn key_from(polys: Vec<Vec<u32>>, poly_size: usize) -> GlweSecretKey<u32> {
    let mut ps: Vec<Polynomial<u32>> = Vec::new();
    for coefs in polys {
        ps.push(Polynomial::from_container(coefs));
    }
    GlweSecretKey::from_polynomial_list(ps, PolynomialSize(poly_size))
}

/// Keys of unequal polynomial size are rejected with
/// `PolynomialSizeMismatch`, before the dimensions are even compared.
#[test]
fn test_tensor_product_rejects_polynomial_size_mismatch() {
    let mut engine = CoreEngine::new(Seed(1));
    let k1 = key_from(vec![vec![1, 0]], 2);
    let k2 = key_from(vec![vec![1, 0, 0, 0]], 4);
    let r = engine.create_tensor_product_glwe_secret_key(&k1, &k2);
    assert_eq!(
        r.err(),
        Some(TensorProductGlweSecretKeyCreationError::PolynomialSizeMismatch)
    );

    // a size mismatch wins even when the dimensions differ too
    let k3 = key_from(vec![vec![1, 0], vec![0, 1]], 2);
    let r = engine.create_tensor_product_glwe_secret_key(&k3, &k2);
    assert_eq!(
        r.err(),
        Some(TensorProductGlweSecretKeyCreationError::PolynomialSizeMismatch)
    );
}

/// Keys of equal polynomial size but unequal dimension are rejected with
/// `InputGlweDimensionMismatch`.
#[test]
fn test_tensor_product_rejects_dimension_mismatch() {
    let mut engine = CoreEngine::new(Seed(2));
    let k1 = key_from(vec![vec![1, 0]], 2);
    let k2 = key_from(vec![vec![1, 0], vec![0, 1]], 2);
    let r = engine.create_tensor_product_glwe_secret_key(&k1, &k2);
    assert_eq!(
        r.err(),
        Some(TensorProductGlweSecretKeyCreationError::InputGlweDimensionMismatch)
    );
}

/// The checked generic check itself accepts exactly the agreeing pairs.
#[test]
fn test_perform_generic_checks() {
    let k1 = key_from(vec![vec![1, 0]], 2);
    let k2 = key_from(vec![vec![0, 1]], 2);
    assert!(TensorProductGlweSecretKeyCreationError::perform_generic_checks(&k1, &k2).is_ok());
    let k3 = key_from(vec![vec![0, 1, 0, 0]], 4);
    assert_eq!(
        TensorProductGlweSecretKeyCreationError::perform_generic_checks(&k1, &k3).err(),
        Some(TensorProductGlweSecretKeyCreationError::PolynomialSizeMismatch)
    );
}

/// The product of two one-polynomial keys is the negacyclic product of the
/// polynomials: `(1 + X)^2 == 2X` in `Z[X]/(X^2 + 1)`.
#[test]
fn test_tensor_product_values_single() {
    let mut engine = CoreEngine::new(Seed(3));
    let k = key_from(vec![vec![1, 1]], 2);
    let product = engine.create_tensor_product_glwe_secret_key(&k, &k).unwrap();
    assert_eq!(product.polys.len(), 1);
    assert_eq!(product.polys[0].coefs, vec![0u32, 2]);
}

/// A two-polynomial key yields the three pairs (0,0), (0,1), (1,1) in
/// row-major order.
#[test]
fn test_tensor_product_ordering() {
    let mut engine = CoreEngine::new(Seed(4));
    // s0 = 1, s1 = X over X^2 + 1
    let k = key_from(vec![vec![1, 0], vec![0, 1]], 2);
    let product = engine.create_tensor_product_glwe_secret_key(&k, &k).unwrap();
    assert_eq!(product.polys.len(), 3);
    // s0*s0 = 1
    assert_eq!(product.polys[0].coefs, vec![1u32, 0]);
    // s0*s1 = X
    assert_eq!(product.polys[1].coefs, vec![0u32, 1]);
    // s1*s1 = X^2 = -1
    assert_eq!(product.polys[2].coefs, vec![u32::MAX, 0]);
}

/// The unchecked entry computes the same product as the checked one.
#[test]
fn test_tensor_product_unchecked_agrees() {
    let mut engine = CoreEngine::new(Seed(5));
    let k = key_from(vec![vec![1, 1], vec![1, 0]], 2);
    let checked = engine.create_tensor_product_glwe_secret_key(&k, &k).unwrap();
    let unchecked = engine.create_tensor_product_glwe_secret_key_unchecked(&k, &k);
    for (a, b) in checked.polys.iter().zip(unchecked.polys.iter()) {
        assert_eq!(a.coefs, b.coefs);
    }
}
