//! The engine's side of the statistical test oracle: for each operation
//! kind, the parameter sets the oracle drives it with and the closed-form
//! prediction of the output noise. The oracle itself — repeated randomized
//! trials, decryption, and the comparison of the observed spread against
//! the prediction — is an external collaborator; these types are the
//! contract boundary it consumes.

use vstd::prelude::*;
use crate::params::{LweDimension, GlweDimension, PolynomialSize, LweCiphertextCount};
use crate::noise::{Variance, estimate_addition_noise};

verus! {

/// The oracle's driver for GLWE secret-key creation.
pub struct GlweSecretKeyCreationFixture;

/// One parameter set for GLWE secret-key creation.
#[derive(Clone, Copy, Debug, PartialEq, Eq, Structural)]
pub struct GlweSecretKeyCreationParameters {
    pub glwe_dimension: GlweDimension,
    pub polynomial_size: PolynomialSize,
}

impl GlweSecretKeyCreationFixture {
    /// The parameter sets key creation is exercised with: a wide key of a
    /// sizeable ring, and the smallest supported shape.
    pub fn generate_parameters_iterator() -> (r: Vec<GlweSecretKeyCreationParameters>)
        ensures
            r@.len() == 2,
            r@[0] == (GlweSecretKeyCreationParameters {
                glwe_dimension: GlweDimension(200),
                polynomial_size: PolynomialSize(256),
            }),
            r@[1] == (GlweSecretKeyCreationParameters {
                glwe_dimension: GlweDimension(1),
                polynomial_size: PolynomialSize(2),
            }),
    {
        let mut r: Vec<GlweSecretKeyCreationParameters> = Vec::new();
        r.push(
            GlweSecretKeyCreationParameters {
                glwe_dimension: GlweDimension(200),
                polynomial_size: PolynomialSize(256),
            },
        );
        r.push(
            GlweSecretKeyCreationParameters {
                glwe_dimension: GlweDimension(1),
                polynomial_size: PolynomialSize(2),
            },
        );
        r
    }
}

/// The oracle's driver for the discarding subtraction of two LWE
/// ciphertexts.
pub struct LweCiphertextDiscardingSubtractionFixture;

/// One parameter set for a discarding subtraction trial.
#[derive(Clone, Copy, Debug, PartialEq, Eq, Structural)]
pub struct LweCiphertextDiscardingSubtractionParameters {
    pub noise: Variance,
    pub lwe_dimension: LweDimension,
}

impl LweCiphertextDiscardingSubtractionFixture {
    /// The parameter set the subtraction is exercised with.
    pub fn generate_parameters_iterator() -> (r: Vec<
        LweCiphertextDiscardingSubtractionParameters,
    >)
        ensures
            r@.len() == 1,
            r@[0].lwe_dimension == LweDimension(600),
            r@[0].noise == Variance::spec_log_std_dev_minus_15(),
    {
        let mut r: Vec<LweCiphertextDiscardingSubtractionParameters> = Vec::new();
        r.push(
            LweCiphertextDiscardingSubtractionParameters {
                noise: Variance::from_log_standard_dev(-15),
                lwe_dimension: LweDimension(600),
            },
        );
        proof {
            Variance::lemma_log_std_dev_minus_15();
        }
        r
    }

    /// The predicted output noise of a trial: a subtraction of two
    /// independent ciphertexts adds their variances, exactly as an addition
    /// does.
    pub fn compute_criteria(parameters: &LweCiphertextDiscardingSubtractionParameters) -> (r:
        Variance)
        requires
            parameters.noise.units * 2 <= u128::MAX,
        ensures
            r.units == parameters.noise.units + parameters.noise.units,
    {
        estimate_addition_noise(parameters.noise, parameters.noise)
    }
}

/// The oracle's driver for the fusing subtraction of a plaintext from an
/// LWE ciphertext.
pub struct LweCiphertextPlaintextFusingSubtractionFixture;

/// One parameter set for a plaintext fusing subtraction trial.
#[derive(Clone, Copy, Debug, PartialEq, Eq, Structural)]
pub struct LweCiphertextPlaintextFusingSubtractionParameters {
    pub noise: Variance,
    pub lwe_dimension: LweDimension,
}

impl LweCiphertextPlaintextFusingSubtractionFixture {
    /// The parameter set the operation is exercised with.
    pub fn generate_parameters_iterator() -> (r: Vec<
        LweCiphertextPlaintextFusingSubtractionParameters,
    >)
        ensures
            r@.len() == 1,
            r@[0].lwe_dimension == LweDimension(600),
            r@[0].noise == Variance::spec_log_std_dev_minus_15(),
    {
        let mut r: Vec<LweCiphertextPlaintextFusingSubtractionParameters> = Vec::new();
        r.push(
            LweCiphertextPlaintextFusingSubtractionParameters {
                noise: Variance::from_log_standard_dev(-15),
                lwe_dimension: LweDimension(600),
            },
        );
        proof {
            Variance::lemma_log_std_dev_minus_15();
        }
        r
    }

    /// The predicted output noise of a trial: shifting the body by a
    /// plaintext touches no mask element, so the noise is the input's,
    /// unchanged.
    pub fn compute_criteria(parameters: &LweCiphertextPlaintextFusingSubtractionParameters) -> (r:
        Variance)
        ensures
            r == parameters.noise,
    {
        parameters.noise
    }
}

/// The oracle's driver for the discarding addition of two LWE ciphertext
/// vectors.
pub struct LweCiphertextVectorDiscardingAdditionFixture;

/// One parameter set for a vector discarding addition trial.
#[derive(Clone, Copy, Debug, PartialEq, Eq, Structural)]
pub struct LweCiphertextVectorDiscardingAdditionParameters {
    pub lwe_ciphertext_count: LweCiphertextCount,
    pub noise: Variance,
    pub lwe_dimension: LweDimension,
}

impl LweCiphertextVectorDiscardingAdditionFixture {
    /// The parameter sets the vector addition is exercised with: a single
    /// ciphertext, and a hundred at once.
    pub fn generate_parameters_iterator() -> (r: Vec<
        LweCiphertextVectorDiscardingAdditionParameters,
    >)
        ensures
            r@.len() == 2,
            r@[0].lwe_ciphertext_count == LweCiphertextCount(1),
            r@[1].lwe_ciphertext_count == LweCiphertextCount(100),
            forall|i: int|
                0 <= i < 2 ==> (#[trigger] r@[i]).lwe_dimension == LweDimension(600)
                    && r@[i].noise == Variance::spec_log_std_dev_minus_15(),
    {
        let noise = Variance::from_log_standard_dev(-15);
        proof {
            Variance::lemma_log_std_dev_minus_15();
        }
        let mut r: Vec<LweCiphertextVectorDiscardingAdditionParameters> = Vec::new();
        r.push(
            LweCiphertextVectorDiscardingAdditionParameters {
                lwe_ciphertext_count: LweCiphertextCount(1),
                noise,
                lwe_dimension: LweDimension(600),
            },
        );
        r.push(
            LweCiphertextVectorDiscardingAdditionParameters {
                lwe_ciphertext_count: LweCiphertextCount(100),
                noise,
                lwe_dimension: LweDimension(600),
            },
        );
        r
    }

    /// The predicted output noise of a trial: every slot is the sum of two
    /// independent ciphertexts, so every slot's variance is the sum of the
    /// input variances.
    pub fn compute_criteria(parameters: &LweCiphertextVectorDiscardingAdditionParameters) -> (r:
        Variance)
        requires
            parameters.noise.units * 2 <= u128::MAX,
        ensures
            r.units == parameters.noise.units + parameters.noise.units,
    {
        estimate_addition_noise(parameters.noise, parameters.noise)
    }
}

impl Variance {
    /// The variance the oracle's standard parameter sets request: that of a
    /// Gaussian of standard deviation `2^-15`.
    pub open spec fn spec_log_std_dev_minus_15() -> Variance {
        Variance { units: 0x4_0000_0000_0000_0000_0000_0000 }
    }

    /// `from_log_standard_dev(-15)` builds exactly that variance.
    pub proof fn lemma_log_std_dev_minus_15()
        ensures
            Variance::spec_log_std_dev_minus_15().units == vstd::arithmetic::power2::pow2(98),
    {
        vstd::arithmetic::power2::lemma2_to64();
        vstd::arithmetic::power2::lemma2_to64_rest();
        vstd::arithmetic::power2::lemma_pow2_adds(34, 64);
    }
}

} // verus!
