//! The engine: the entry point every client calls. It owns the exclusive
//! random-generation context and exposes each homomorphic primitive twice —
//! a checked entry that validates the structural preconditions and reports a
//! named violation without mutating anything, and an unchecked entry whose
//! preconditions the caller must have established. Here the unchecked
//! entries carry their preconditions as `requires` clauses, so a verified
//! caller cannot reach them wrongly.

use vstd::prelude::*;
use crate::torus::{TorusElement, torus_dist};
use crate::params::{LweDimension, LweSize, GlweDimension, PolynomialSize, GlweSize};
use crate::plaintext::{Plaintext, Cleartext, PlaintextList, CleartextVector};
use crate::lwe::{LweCiphertext, LweSecretKey};
use crate::vector::{LweCiphertextVector, multisum_mask, multisum_body};
use crate::glwe::{GlweCiphertext, GlweSecretKey};
use crate::tensor::{
    TensorProductGlweSecretKeyCreationEngine,
    TensorProductGlweSecretKeyCreationError,
    is_tensor_product_key,
};
use crate::random::RandomSource;
use crate::noise::{Variance, noise_spread};
use crate::seeders::Seed;

verus! {

/// The dimensions of two ciphertexts of a discarding or fusing operation do
/// not agree.
#[derive(Clone, Copy, Debug, PartialEq, Eq, Structural)]
pub enum LweCiphertextDiscardingAdditionError {
    LweDimensionMismatch,
}

/// The dimensions of two ciphertexts of a discarding subtraction do not
/// agree.
#[derive(Clone, Copy, Debug, PartialEq, Eq, Structural)]
pub enum LweCiphertextDiscardingSubtractionError {
    LweDimensionMismatch,
}

/// The dimensions of the two ciphertexts of a fusing addition do not agree.
#[derive(Clone, Copy, Debug, PartialEq, Eq, Structural)]
pub enum LweCiphertextFusingAdditionError {
    LweDimensionMismatch,
}

/// The dimensions of the two ciphertexts of a fusing subtraction do not
/// agree.
#[derive(Clone, Copy, Debug, PartialEq, Eq, Structural)]
pub enum LweCiphertextFusingSubtractionError {
    LweDimensionMismatch,
}

/// The dimensions of the ciphertexts of a discarding negation do not agree.
#[derive(Clone, Copy, Debug, PartialEq, Eq, Structural)]
pub enum LweCiphertextDiscardingOppositeError {
    LweDimensionMismatch,
}

/// The dimensions of the ciphertexts of a discarding cleartext
/// multiplication do not agree.
#[derive(Clone, Copy, Debug, PartialEq, Eq, Structural)]
pub enum LweCiphertextCleartextDiscardingMultiplicationError {
    LweDimensionMismatch,
}

/// The structural violations of a discarding vector addition.
#[derive(Clone, Copy, Debug, PartialEq, Eq, Structural)]
pub enum LweCiphertextVectorDiscardingAdditionError {
    LweDimensionMismatch,
    CiphertextCountMismatch,
}

/// The structural violations of a discarding affine transform.
#[derive(Clone, Copy, Debug, PartialEq, Eq, Structural)]
pub enum LweCiphertextVectorDiscardingAffineTransformationError {
    LweDimensionMismatch,
    CleartextCountMismatch,
}

/// The engine. It owns the random-generation context used by key creation
/// and encryption; an engine must not be shared between threads, and
/// parallel callers need independently seeded engines.
pub struct CoreEngine {
    generator: RandomSource,
}

impl CoreEngine {
    /// Builds an engine whose generator is seeded from `seed`.
    pub fn new(seed: Seed) -> CoreEngine {
        CoreEngine { generator: RandomSource::new(seed) }
    }

    /// Creates a fresh binary LWE secret key.
    pub fn create_lwe_secret_key<T: TorusElement>(
        &mut self,
        lwe_dimension: LweDimension,
    ) -> (r: LweSecretKey<T>)
        ensures
            r.wf(),
            r.coeffs@.len() == lwe_dimension.0,
    {
        LweSecretKey::generate_binary(lwe_dimension, &mut self.generator)
    }

    /// Creates a fresh binary GLWE secret key.
    pub fn create_glwe_secret_key<T: TorusElement>(
        &mut self,
        glwe_dimension: GlweDimension,
        poly_size: PolynomialSize,
    ) -> (r: GlweSecretKey<T>)
        requires
            poly_size.0 >= 1,
        ensures
            r.wf(),
            r.is_binary(),
            r.polys@.len() == glwe_dimension.0,
            r.poly_size == poly_size,
    {
        GlweSecretKey::generate_binary(glwe_dimension, poly_size, &mut self.generator)
    }

    /// Wraps a raw torus word as a plaintext.
    pub fn create_plaintext<T: TorusElement>(&mut self, input: &T) -> (r: Plaintext<T>)
        ensures
            r.0 == *input,
    {
        Plaintext(*input)
    }

    /// Wraps a raw integer as a cleartext.
    pub fn create_cleartext<T: TorusElement>(&mut self, input: &T) -> (r: Cleartext<T>)
        ensures
            r.0 == *input,
    {
        Cleartext(*input)
    }

    /// Retrieves the raw torus word of a plaintext.
    pub fn retrieve_plaintext<T: TorusElement>(&mut self, input: &Plaintext<T>) -> (r: T)
        ensures
            r == input.0,
    {
        input.0
    }

    /// Encrypts a plaintext under an LWE key with the requested noise
    /// variance: the result's phase lies within six noise spreads of the
    /// plaintext along the torus.
    pub fn encrypt_lwe_ciphertext<T: TorusElement>(
        &mut self,
        key: &LweSecretKey<T>,
        input: &Plaintext<T>,
        noise: Variance,
    ) -> (r: LweCiphertext<T>)
        requires
            key.wf(),
            key.coeffs@.len() < usize::MAX,
            12 * noise_spread(noise, T::bits_spec()) < T::modulus(),
        ensures
            r.dim() == key.coeffs@.len(),
            torus_dist(r.phase(*key), input.0.as_int(), T::modulus()) <= 6 * noise_spread(
                noise,
                T::bits_spec(),
            ),
    {
        let size = key.lwe_dimension().to_lwe_size();
        let mut ct = LweCiphertext::allocate(size);
        key.encrypt_lwe(&mut ct, input, noise, &mut self.generator);
        ct
    }

    /// Encrypts zero: a fresh encryption whose phase lies within six noise
    /// spreads of zero.
    pub fn zero_encrypt_lwe_ciphertext<T: TorusElement>(
        &mut self,
        key: &LweSecretKey<T>,
        noise: Variance,
    ) -> (r: LweCiphertext<T>)
        requires
            key.wf(),
            key.coeffs@.len() < usize::MAX,
            12 * noise_spread(noise, T::bits_spec()) < T::modulus(),
        ensures
            r.dim() == key.coeffs@.len(),
            torus_dist(r.phase(*key), 0, T::modulus()) <= 6 * noise_spread(
                noise,
                T::bits_spec(),
            ),
    {
        let zero = Plaintext(T::zero());
        self.encrypt_lwe_ciphertext(key, &zero, noise)
    }

    /// Builds a trivial encryption: zero mask, the plaintext as the body.
    pub fn trivially_encrypt_lwe_ciphertext<T: TorusElement>(
        &mut self,
        lwe_size: LweSize,
        input: &Plaintext<T>,
    ) -> (r: LweCiphertext<T>)
        requires
            lwe_size.0 >= 1,
        ensures
            r.dim() == lwe_size.0 - 1,
            forall|i: int| 0 <= i < r.dim() ==> #[trigger] r.mask_int(i) == 0,
            r.body_int() == input.0.as_int(),
    {
        LweCiphertext::trivial_encrypt(lwe_size, input)
    }

    /// Decrypts a ciphertext: returns exactly its phase under the key.
    pub fn decrypt_lwe_ciphertext<T: TorusElement>(
        &self,
        key: &LweSecretKey<T>,
        input: &LweCiphertext<T>,
    ) -> (r: Plaintext<T>)
        requires
            key.wf(),
            input.dim() == key.coeffs@.len(),
        ensures
            r.0.as_int() == input.phase(*key),
    {
        key.decrypt_lwe(input)
    }

    /// Checked discarding addition: validates that all three ciphertexts
    /// share one dimension, then overwrites `output` with the sum of the
    /// inputs; on mismatch nothing is mutated.
    pub fn discard_add_lwe_ciphertext<T: TorusElement>(
        &mut self,
        output: &mut LweCiphertext<T>,
        input_1: &LweCiphertext<T>,
        input_2: &LweCiphertext<T>,
    ) -> (r: Result<(), LweCiphertextDiscardingAdditionError>)
        ensures
            r is Ok <==> (old(output).dim() == input_1.dim() && input_1.dim() == input_2.dim()),
            r is Ok ==> final(output).stores_add(*input_1, *input_2),
            r is Err ==> *final(output) == *old(output),
    {
        if output.lwe_dimension().0 != input_1.lwe_dimension().0 || input_1.lwe_dimension().0
            != input_2.lwe_dimension().0 {
            return Err(LweCiphertextDiscardingAdditionError::LweDimensionMismatch);
        }
        self.discard_add_lwe_ciphertext_unchecked(output, input_1, input_2);
        Ok(())
    }

    /// Unchecked discarding addition: the caller must have established that
    /// the dimensions agree.
    pub fn discard_add_lwe_ciphertext_unchecked<T: TorusElement>(
        &mut self,
        output: &mut LweCiphertext<T>,
        input_1: &LweCiphertext<T>,
        input_2: &LweCiphertext<T>,
    )
        requires
            old(output).dim() == input_1.dim(),
            input_1.dim() == input_2.dim(),
        ensures
            final(output).stores_add(*input_1, *input_2),
    {
        output.fill_with_add(input_1, input_2);
    }

    /// Checked discarding subtraction.
    pub fn discard_sub_lwe_ciphertext<T: TorusElement>(
        &mut self,
        output: &mut LweCiphertext<T>,
        input_1: &LweCiphertext<T>,
        input_2: &LweCiphertext<T>,
    ) -> (r: Result<(), LweCiphertextDiscardingSubtractionError>)
        ensures
            r is Ok <==> (old(output).dim() == input_1.dim() && input_1.dim() == input_2.dim()),
            r is Ok ==> final(output).stores_sub(*input_1, *input_2),
            r is Err ==> *final(output) == *old(output),
    {
        if output.lwe_dimension().0 != input_1.lwe_dimension().0 || input_1.lwe_dimension().0
            != input_2.lwe_dimension().0 {
            return Err(LweCiphertextDiscardingSubtractionError::LweDimensionMismatch);
        }
        self.discard_sub_lwe_ciphertext_unchecked(output, input_1, input_2);
        Ok(())
    }

    /// Unchecked discarding subtraction.
    pub fn discard_sub_lwe_ciphertext_unchecked<T: TorusElement>(
        &mut self,
        output: &mut LweCiphertext<T>,
        input_1: &LweCiphertext<T>,
        input_2: &LweCiphertext<T>,
    )
        requires
            old(output).dim() == input_1.dim(),
            input_1.dim() == input_2.dim(),
        ensures
            final(output).stores_sub(*input_1, *input_2),
    {
        output.fill_with_sub(input_1, input_2);
    }

    /// Checked fusing addition: adds `input` onto `output` in place.
    pub fn fuse_add_lwe_ciphertext<T: TorusElement>(
        &mut self,
        output: &mut LweCiphertext<T>,
        input: &LweCiphertext<T>,
    ) -> (r: Result<(), LweCiphertextFusingAdditionError>)
        ensures
            r is Ok <==> old(output).dim() == input.dim(),
            r is Ok ==> final(output).stores_add(*old(output), *input),
            r is Err ==> *final(output) == *old(output),
    {
        if output.lwe_dimension().0 != input.lwe_dimension().0 {
            return Err(LweCiphertextFusingAdditionError::LweDimensionMismatch);
        }
        output.update_with_add(input);
        Ok(())
    }

    /// Unchecked fusing addition.
    pub fn fuse_add_lwe_ciphertext_unchecked<T: TorusElement>(
        &mut self,
        output: &mut LweCiphertext<T>,
        input: &LweCiphertext<T>,
    )
        requires
            old(output).dim() == input.dim(),
        ensures
            final(output).stores_add(*old(output), *input),
    {
        output.update_with_add(input);
    }

    /// Checked fusing subtraction: subtracts `input` from `output` in place.
    pub fn fuse_sub_lwe_ciphertext<T: TorusElement>(
        &mut self,
        output: &mut LweCiphertext<T>,
        input: &LweCiphertext<T>,
    ) -> (r: Result<(), LweCiphertextFusingSubtractionError>)
        ensures
            r is Ok <==> old(output).dim() == input.dim(),
            r is Ok ==> final(output).stores_sub(*old(output), *input),
            r is Err ==> *final(output) == *old(output),
    {
        if output.lwe_dimension().0 != input.lwe_dimension().0 {
            return Err(LweCiphertextFusingSubtractionError::LweDimensionMismatch);
        }
        output.update_with_sub(input);
        Ok(())
    }

    /// Fusing plaintext addition: no structural precondition, so the one
    /// entry point serves both roles.
    pub fn fuse_add_lwe_ciphertext_plaintext<T: TorusElement>(
        &mut self,
        output: &mut LweCiphertext<T>,
        input: &Plaintext<T>,
    )
        ensures
            final(output).stores_plaintext_add(*old(output), input.0.as_int()),
    {
        output.update_with_plaintext_add(input);
    }

    /// Fusing plaintext subtraction: no structural precondition, so the one
    /// entry point serves both roles.
    pub fn fuse_sub_lwe_ciphertext_plaintext<T: TorusElement>(
        &mut self,
        output: &mut LweCiphertext<T>,
        input: &Plaintext<T>,
    )
        ensures
            final(output).stores_plaintext_sub(*old(output), input.0.as_int()),
    {
        output.update_with_plaintext_sub(input);
    }

    /// Checked discarding negation.
    pub fn discard_opp_lwe_ciphertext<T: TorusElement>(
        &mut self,
        output: &mut LweCiphertext<T>,
        input: &LweCiphertext<T>,
    ) -> (r: Result<(), LweCiphertextDiscardingOppositeError>)
        ensures
            r is Ok <==> old(output).dim() == input.dim(),
            r is Ok ==> final(output).stores_opp(*input),
            r is Err ==> *final(output) == *old(output),
    {
        if output.lwe_dimension().0 != input.lwe_dimension().0 {
            return Err(LweCiphertextDiscardingOppositeError::LweDimensionMismatch);
        }
        output.fill_with_opp(input);
        Ok(())
    }

    /// Fusing negation: negates `output` in place; no structural
    /// precondition.
    pub fn fuse_opp_lwe_ciphertext<T: TorusElement>(&mut self, output: &mut LweCiphertext<T>)
        ensures
            final(output).stores_opp(*old(output)),
    {
        output.update_with_opp();
    }

    /// Checked discarding cleartext multiplication.
    pub fn discard_mul_lwe_ciphertext_cleartext<T: TorusElement>(
        &mut self,
        output: &mut LweCiphertext<T>,
        input_1: &LweCiphertext<T>,
        input_2: &Cleartext<T>,
    ) -> (r: Result<(), LweCiphertextCleartextDiscardingMultiplicationError>)
        ensures
            r is Ok <==> old(output).dim() == input_1.dim(),
            r is Ok ==> final(output).stores_cleartext_mul(*input_1, input_2.0.as_int()),
            r is Err ==> *final(output) == *old(output),
    {
        if output.lwe_dimension().0 != input_1.lwe_dimension().0 {
            return Err(LweCiphertextCleartextDiscardingMultiplicationError::LweDimensionMismatch);
        }
        output.fill_with_cleartext_mul(input_1, input_2);
        Ok(())
    }

    /// Fusing cleartext multiplication: scales `output` in place; no
    /// structural precondition.
    pub fn fuse_mul_lwe_ciphertext_cleartext<T: TorusElement>(
        &mut self,
        output: &mut LweCiphertext<T>,
        input: &Cleartext<T>,
    )
        ensures
            final(output).stores_cleartext_mul(*old(output), input.0.as_int()),
    {
        output.update_with_cleartext_mul(input);
    }

    /// Checked discarding vector addition: every ciphertext of `output`
    /// receives the sum of the corresponding inputs.
    pub fn discard_add_lwe_ciphertext_vector<T: TorusElement>(
        &mut self,
        output: &mut LweCiphertextVector<T>,
        input_1: &LweCiphertextVector<T>,
        input_2: &LweCiphertextVector<T>,
    ) -> (r: Result<(), LweCiphertextVectorDiscardingAdditionError>)
        requires
            old(output).wf(),
            input_1.wf(),
            input_2.wf(),
        ensures
            r is Ok <==> (old(output).lwe_size == input_1.lwe_size && input_1.lwe_size
                == input_2.lwe_size && old(output).cts@.len() == input_1.cts@.len()
                && input_1.cts@.len() == input_2.cts@.len()),
            r is Ok ==> final(output).wf() && final(output).cts@.len() == old(
                output,
            ).cts@.len() && forall|i: int|
                0 <= i < input_1.cts@.len() ==> (#[trigger] final(output).cts@[i]).stores_add(
                    input_1.cts@[i],
                    input_2.cts@[i],
                ),
            r is Err ==> *final(output) == *old(output),
    {
        if output.lwe_dimension().0 != input_1.lwe_dimension().0 || input_1.lwe_dimension().0
            != input_2.lwe_dimension().0 {
            return Err(LweCiphertextVectorDiscardingAdditionError::LweDimensionMismatch);
        }
        if output.lwe_ciphertext_count().0 != input_1.lwe_ciphertext_count().0
            || input_1.lwe_ciphertext_count().0 != input_2.lwe_ciphertext_count().0 {
            return Err(LweCiphertextVectorDiscardingAdditionError::CiphertextCountMismatch);
        }
        self.discard_add_lwe_ciphertext_vector_unchecked(output, input_1, input_2);
        Ok(())
    }

    /// Unchecked discarding vector addition.
    pub fn discard_add_lwe_ciphertext_vector_unchecked<T: TorusElement>(
        &mut self,
        output: &mut LweCiphertextVector<T>,
        input_1: &LweCiphertextVector<T>,
        input_2: &LweCiphertextVector<T>,
    )
        requires
            old(output).wf(),
            input_1.wf(),
            input_2.wf(),
            old(output).lwe_size == input_1.lwe_size,
            input_1.lwe_size == input_2.lwe_size,
            old(output).cts@.len() == input_1.cts@.len(),
            input_1.cts@.len() == input_2.cts@.len(),
        ensures
            final(output).wf(),
            final(output).cts@.len() == old(output).cts@.len(),
            forall|i: int|
                0 <= i < input_1.cts@.len() ==> (#[trigger] final(output).cts@[i]).stores_add(
                    input_1.cts@[i],
                    input_2.cts@[i],
                ),
    {
        output.fill_with_add_vector(input_1, input_2);
    }

    /// Checked discarding affine transform: `output` receives the weighted
    /// sum of the input ciphertexts against the cleartext weights, plus the
    /// plaintext bias.
    pub fn discard_affine_transform_lwe_ciphertext_vector<T: TorusElement>(
        &mut self,
        output: &mut LweCiphertext<T>,
        inputs: &LweCiphertextVector<T>,
        weights: &CleartextVector<T>,
        bias: &Plaintext<T>,
    ) -> (r: Result<(), LweCiphertextVectorDiscardingAffineTransformationError>)
        requires
            inputs.wf(),
        ensures
            r is Ok <==> (old(output).dim() == inputs.lwe_size.0 - 1 && inputs.cts@.len()
                == weights.values@.len()),
            r is Ok ==> final(output).dim() == old(output).dim() && (forall|i: int|
                0 <= i < final(output).dim() ==> #[trigger] final(output).mask_int(i)
                    == multisum_mask(
                    inputs.cts@,
                    weights.values@,
                    inputs.cts@.len() as int,
                    i,
                ) % T::modulus()) && final(output).body_int() == (bias.0.as_int() + multisum_body(
                inputs.cts@,
                weights.values@,
                inputs.cts@.len() as int,
            )) % T::modulus(),
            r matches Err(e) ==> *final(output) == *old(output) && (e
                == LweCiphertextVectorDiscardingAffineTransformationError::LweDimensionMismatch
                <==> old(output).dim() != inputs.lwe_size.0 - 1),
    {
        if output.lwe_dimension().0 != inputs.lwe_size.0 - 1 {
            return Err(
                LweCiphertextVectorDiscardingAffineTransformationError::LweDimensionMismatch,
            );
        }
        if inputs.lwe_ciphertext_count().0 != weights.values.len() {
            return Err(
                LweCiphertextVectorDiscardingAffineTransformationError::CleartextCountMismatch,
            );
        }
        output.fill_with_multisum_and_bias(inputs, weights, bias);
        Ok(())
    }
}

/// The structural violations of a discarding key switch.
#[derive(Clone, Copy, Debug, PartialEq, Eq, Structural)]
pub enum LweCiphertextDiscardingKeyswitchError {
    InputLweDimensionMismatch,
    OutputLweDimensionMismatch,
}

/// The structural violations of a discarding external product.
#[derive(Clone, Copy, Debug, PartialEq, Eq, Structural)]
pub enum GlweCiphertextGgswCiphertextDiscardingExternalProductError {
    GlweDimensionMismatch,
    PolynomialSizeMismatch,
}

impl CoreEngine {
    /// Checked discarding key switch: validates that the input matches the
    /// key's input dimension and the output its output dimension, then
    /// re-encrypts; on mismatch nothing is mutated.
    pub fn discard_keyswitch_lwe_ciphertext<T: TorusElement>(
        &mut self,
        output: &mut LweCiphertext<T>,
        input: &LweCiphertext<T>,
        ksk: &crate::keyswitch::LweKeyswitchKey<T>,
    ) -> (r: Result<(), LweCiphertextDiscardingKeyswitchError>)
        requires
            ksk.wf(),
            ksk.output_dimension.0 < usize::MAX,
        ensures
            r is Ok <==> (input.dim() == ksk.input_dimension.0 && old(output).dim()
                == ksk.output_dimension.0),
            r is Ok ==> final(output).dim() == ksk.output_dimension.0 && (forall|c: int|
                0 <= c < ksk.output_dimension.0 ==> #[trigger] final(output).mask_int(c) == (0
                    - crate::keyswitch::ks_acc_mask(
                    *ksk,
                    *input,
                    ksk.cts@.len() as int,
                    c,
                )) % T::modulus()) && final(output).body_int() == (input.body_int()
                - crate::keyswitch::ks_acc_body(*ksk, *input, ksk.cts@.len() as int))
                % T::modulus(),
            r matches Err(e) ==> *final(output) == *old(output) && (e
                == LweCiphertextDiscardingKeyswitchError::InputLweDimensionMismatch <==> input.dim()
                != ksk.input_dimension.0),
    {
        if input.lwe_dimension().0 != ksk.input_lwe_dimension().0 {
            return Err(LweCiphertextDiscardingKeyswitchError::InputLweDimensionMismatch);
        }
        if output.lwe_dimension().0 != ksk.output_lwe_dimension().0 {
            return Err(LweCiphertextDiscardingKeyswitchError::OutputLweDimensionMismatch);
        }
        crate::keyswitch::discard_keyswitch_lwe_ciphertext(output, input, ksk);
        Ok(())
    }

    /// Checked discarding external product: validates that the input and
    /// output GLWE ciphertexts have the GGSW ciphertext's shape, then
    /// multiplies; on mismatch nothing is mutated.
    pub fn discard_compute_external_product_glwe_ciphertext_ggsw_ciphertext<T: TorusElement>(
        &mut self,
        output: &mut GlweCiphertext<T>,
        ggsw: &crate::ggsw::GgswCiphertext<T>,
        input: &GlweCiphertext<T>,
    ) -> (r: Result<(), GlweCiphertextGgswCiphertextDiscardingExternalProductError>)
        requires
            ggsw.wf(),
            input.wf(),
            old(output).wf(),
            ggsw.glwe_dimension.0 < usize::MAX,
        ensures
            r is Ok <==> (input.dim() == ggsw.glwe_dimension.0 && old(output).dim()
                == ggsw.glwe_dimension.0 && input.body.len() == ggsw.poly_size.0 && old(
                output,
            ).body.len() == ggsw.poly_size.0),
            r is Ok ==> final(output).wf() && final(output).dim() == ggsw.glwe_dimension.0
                && final(output).body.len() == ggsw.poly_size.0 && (forall|t: int, c: int|
                0 <= t < ggsw.glwe_dimension.0 && 0 <= c < ggsw.poly_size.0
                    ==> #[trigger] final(output).mask@[t].coef_int(c) == crate::ggsw::ep_acc(
                    *ggsw,
                    *input,
                    ggsw.rows@.len() as int,
                    t,
                    c,
                ) % T::modulus()) && (forall|c: int|
                0 <= c < ggsw.poly_size.0 ==> #[trigger] final(output).body.coef_int(c)
                    == crate::ggsw::ep_acc(
                    *ggsw,
                    *input,
                    ggsw.rows@.len() as int,
                    ggsw.glwe_dimension.0 as int,
                    c,
                ) % T::modulus()),
            r is Err ==> *final(output) == *old(output),
    {
        if input.glwe_dimension().0 != ggsw.glwe_dimension().0 || output.glwe_dimension().0
            != ggsw.glwe_dimension().0 {
            return Err(GlweCiphertextGgswCiphertextDiscardingExternalProductError::GlweDimensionMismatch);
        }
        if input.polynomial_size().0 != ggsw.polynomial_size().0 || output.polynomial_size().0
            != ggsw.polynomial_size().0 {
            return Err(
                GlweCiphertextGgswCiphertextDiscardingExternalProductError::PolynomialSizeMismatch,
            );
        }
        crate::ggsw::discard_external_product_glwe_ciphertext_ggsw_ciphertext(
            output,
            ggsw,
            input,
        );
        Ok(())
    }
}

impl<T: TorusElement> TensorProductGlweSecretKeyCreationEngine<T> for CoreEngine {
    fn create_tensor_product_glwe_secret_key(
        &mut self,
        input1: &GlweSecretKey<T>,
        input2: &GlweSecretKey<T>,
    ) -> (r: Result<GlweSecretKey<T>, TensorProductGlweSecretKeyCreationError>) {
        let checked = TensorProductGlweSecretKeyCreationError::perform_generic_checks(
            input1,
            input2,
        );
        match checked {
            Ok(_) => Ok(self.create_tensor_product_glwe_secret_key_unchecked(input1, input2)),
            Err(e) => Err(e),
        }
    }

    fn create_tensor_product_glwe_secret_key_unchecked(
        &mut self,
        input1: &GlweSecretKey<T>,
        input2: &GlweSecretKey<T>,
    ) -> (r: GlweSecretKey<T>) {
        input1.create_tensor_product(input2)
    }
}

impl CoreEngine {
    /// Encrypts a plaintext list under a GLWE key with the requested noise
    /// variance: every phase coefficient of the result lies within six noise
    /// spreads of its plaintext along the torus.
    pub fn encrypt_glwe_ciphertext<T: TorusElement>(
        &mut self,
        key: &GlweSecretKey<T>,
        input: &PlaintextList<T>,
        noise: Variance,
    ) -> (r: GlweCiphertext<T>)
        requires
            key.wf(),
            key.polys@.len() < usize::MAX,
            input.coefs@.len() == key.poly_size.0,
            12 * noise_spread(noise, T::bits_spec()) < T::modulus(),
        ensures
            r.wf(),
            r.dim() == key.polys@.len(),
            r.body.len() == key.poly_size.0,
            forall|j: int|
                0 <= j < key.poly_size.0 ==> torus_dist(
                    #[trigger] r.phase(*key, j),
                    input.coefs@[j].as_int(),
                    T::modulus(),
                ) <= 6 * noise_spread(noise, T::bits_spec()),
    {
        let size = key.glwe_dimension().to_glwe_size();
        let mut ct = GlweCiphertext::allocate(key.polynomial_size(), size);
        key.encrypt_glwe(&mut ct, input, noise, &mut self.generator);
        ct
    }

    /// Decrypts a GLWE ciphertext: returns exactly its phase at every
    /// coefficient.
    pub fn decrypt_glwe_ciphertext<T: TorusElement>(
        &self,
        key: &GlweSecretKey<T>,
        input: &GlweCiphertext<T>,
    ) -> (r: PlaintextList<T>)
        requires
            key.wf(),
            input.wf(),
            input.dim() == key.polys@.len(),
            input.body.len() == key.poly_size.0,
        ensures
            r.coefs@.len() == key.poly_size.0,
            forall|j: int|
                0 <= j < key.poly_size.0 ==> (#[trigger] r.coefs@[j]).as_int() == input.phase(
                    *key,
                    j,
                ),
    {
        let zero = crate::polynomial::Polynomial::<T>::allocate(key.polynomial_size());
        let mut decrypted = PlaintextList::from_container(zero.coefs);
        key.decrypt_glwe(&mut decrypted, input);
        decrypted
    }

    /// Builds a trivial GLWE encryption: zero mask polynomials, the
    /// plaintexts as the body.
    pub fn trivially_encrypt_glwe_ciphertext<T: TorusElement>(
        &mut self,
        glwe_size: GlweSize,
        input: &PlaintextList<T>,
    ) -> (r: GlweCiphertext<T>)
        requires
            glwe_size.0 >= 1,
            input.coefs@.len() >= 1,
        ensures
            r.wf(),
            r.dim() == glwe_size.0 - 1,
            r.body.len() == input.coefs@.len(),
            forall|i: int, j: int|
                0 <= i < r.dim() && 0 <= j < input.coefs@.len() ==> #[trigger] r.mask@[
                    i].coef_int(j) == 0,
            forall|j: int|
                0 <= j < input.coefs@.len() ==> #[trigger] r.body.coef_int(j) == input.coefs@[
                    j].as_int(),
    {
        GlweCiphertext::trivial_encrypt(PolynomialSize(input.coefs.len()), glwe_size, input)
    }
}

} // verus!
