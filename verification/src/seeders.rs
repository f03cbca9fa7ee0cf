//! Seeds for the engine's random generators, and the seeders that produce
//! them from an entropy source.
//!
//! A seeder is the engine's view of the entropy collaborator: one operation
//! that returns a fixed-width seed, with no failure mode visible here.

use vstd::prelude::*;

verus! {

/// A 128-bit seed for a random generator.
#[derive(Clone, Copy, Debug, PartialEq, Eq, Structural)]
pub struct Seed(pub u128);

/// A source of seeds. Implementors draw from an entropy source that the
/// engine treats as an infinite uniformly-random stream, so `seed` promises
/// nothing about the value it returns.
pub trait Seeder {
    /// Produces the next seed.
    fn seed(&mut self) -> Seed;
}

/// A seeder backed by the operating system's entropy source, reached through
/// an external randomness library.
pub struct ExternalLibSeeder;

impl Seeder for ExternalLibSeeder {
    fn seed(&mut self) -> Seed {
        Seed(os_random_u128())
    }
}

/// Relies on rand's `OsRng` (`RngCore::fill_bytes`): fills the buffer with
/// operating-system randomness. Nothing can be promised of the value.
#[verifier::external_body]
fn os_random_u128() -> u128 {
    let mut arr = [0u8; 16];
    rand::RngCore::fill_bytes(&mut rand::rngs::OsRng, &mut arr[..]);
    u128::from_ne_bytes(arr)
}

/// A seeder backed by the JavaScript host's crypto source. The call into the
/// host exists only on a web target and stays outside this library; here the
/// type only names that collaborator.
pub struct JsSeeder;

/// Mixes a caller-chosen secret, a running counter and a word of raw entropy
/// into one seed. Seeders that read entropy from a device combine their
/// inputs this way, so that a compromised device alone cannot fix the seed.
pub fn mix_seed_material(secret: u128, counter: u128, entropy: u128) -> (s: Seed)
    ensures
        s.0 == secret ^ counter ^ entropy,
{
    Seed(secret ^ counter ^ entropy)
}

} // verus!
