//! A lattice-based homomorphic-encryption primitive engine.
//!
//! The crate implements the ciphertext algebra of the LWE and GLWE schemes:
//! encryption and decryption under binary secret keys, trivial (noiseless)
//! encryption, the discarding and fusing variants of addition, subtraction,
//! negation and cleartext multiplication, secret-key tensor products, and the
//! decomposition-based key-dependent transformations, together with the
//! closed-form noise model that predicts the error growth of every operation.
//!
//! All torus arithmetic is modular arithmetic on fixed-width unsigned
//! integers; every operation carries a contract that pins down the resulting
//! coefficients, and encryption carries an exact bound on the error its
//! sampler can introduce.

pub mod torus;
pub mod params;
pub mod noise;
pub mod plaintext;
pub mod polynomial;
pub mod random;
pub mod seeders;
pub mod lwe;
pub mod vector;
pub mod view;
pub mod glwe;
pub mod tensor;
pub mod decomposition;
pub mod keyswitch;
pub mod packing;
pub mod ggsw;
pub mod engine;
pub mod fixture;
