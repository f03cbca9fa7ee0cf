//! The engine's random generation context: a deterministic generator seeded
//! once, drawn from by every operation that needs randomness, plus the
//! bounded error sampler whose output realizes a requested noise spread.

use vstd::prelude::*;
use crate::torus::{TorusElement, torus_dist};
use crate::seeders::Seed;

verus! {

#[verifier::external_type_specification]
#[verifier::external_body]
pub struct ExStdRng(rand::rngs::StdRng);

/// An exclusive random-generation context. An engine owns one; it may not be
/// shared between threads, and nothing is promised about the values it
/// yields.
pub struct RandomSource {
    rng: rand::rngs::StdRng,
}

impl RandomSource {
    /// Relies on rand's `StdRng` (`SeedableRng::from_seed`): builds a
    /// deterministic generator from the given seed.
    #[verifier::external_body]
    pub fn new(seed: Seed) -> RandomSource {
        let mut bytes = [0u8; 32];
        bytes[..16].copy_from_slice(&seed.0.to_le_bytes());
        RandomSource { rng: <rand::rngs::StdRng as rand::SeedableRng>::from_seed(bytes) }
    }

    /// Relies on `StdRng`'s `RngCore::next_u64`: returns the generator's
    /// next word. Nothing can be promised of the value.
    #[verifier::external_body]
    pub fn next_word(&mut self) -> u64 {
        rand::RngCore::next_u64(&mut self.rng)
    }

    /// Draws a uniformly random torus element.
    pub fn random_torus<T: TorusElement>(&mut self) -> T {
        T::from_bits_u64(self.next_word())
    }

    /// Draws a uniformly random bit as a torus element.
    pub fn random_bit<T: TorusElement>(&mut self) -> (b: T)
        ensures
            b.as_int() == 0 || b.as_int() == 1,
    {
        if self.next_word() % 2 == 1 {
            T::one()
        } else {
            T::zero()
        }
    }

    /// Draws a value below `bound`, roughly uniformly.
    pub fn random_below(&mut self, bound: u64) -> (r: u64)
        requires
            bound > 0,
        ensures
            r < bound,
    {
        self.next_word() % bound
    }

    /// Draws an error term whose distance from zero along the torus is at
    /// most six times the requested spread: the sum of twelve uniform draws
    /// over `[0, spread)`, centered, which approximates a Gaussian whose
    /// standard deviation is the spread itself.
    pub fn sample_error<T: TorusElement>(&mut self, spread: u64) -> (e: T)
        requires
            12 * (spread as int) < T::modulus(),
        ensures
            torus_dist(e.as_int(), 0, T::modulus()) <= 6 * (spread as int),
    {
        proof {
            T::lemma_modulus();
        }
        if spread == 0 {
            let z = T::zero();
            proof {
                lemma_zero_dist::<T>(z);
            }
            return z;
        }
        let mut total: u128 = 0;
        let mut i: usize = 0;
        while i < 12
            invariant
                i <= 12,
                spread >= 1,
                total <= (i as int) * ((spread as int) - 1),
            decreases 12 - i,
        {
            proof {
                vstd::arithmetic::mul::lemma_mul_inequality(
                    i as int,
                    12,
                    (spread as int) - 1,
                );
                assert(((i + 1) as int) * ((spread as int) - 1) == (i as int) * ((spread as int)
                    - 1) + ((spread as int) - 1)) by (nonlinear_arith);
            }
            let d = self.random_below(spread);
            total = total + d as u128;
            i = i + 1;
        }
        let center: u128 = 6 * (spread as u128 - 1);
        proof {
            T::lemma_modulus();
        }
        if total >= center {
            let off = total - center;
            let e = T::from_int_u128(off);
            proof {
                lemma_positive_dist::<T>(e, 6 * ((spread as int) - 1));
            }
            e
        } else {
            let off = center - total;
            let e = T::zero().wsub(T::from_int_u128(off));
            proof {
                lemma_negative_dist::<T>(e, off as int, 6 * ((spread as int) - 1));
            }
            e
        }
    }
}

/// The zero element is at distance zero from zero.
proof fn lemma_zero_dist<T: TorusElement>(z: T)
    requires
        z.as_int() == 0,
    ensures
        torus_dist(z.as_int(), 0, T::modulus()) == 0,
{
    let m = T::modulus();
    T::lemma_modulus();
    vstd::arithmetic::div_mod::lemma_small_mod(0, m as nat);
}

/// A small non-negative offset is its own torus distance from zero.
proof fn lemma_positive_dist<T: TorusElement>(e: T, bound: int)
    requires
        0 <= e.as_int() <= bound,
        2 * bound < T::modulus(),
    ensures
        torus_dist(e.as_int(), 0, T::modulus()) <= bound,
{
    let m = T::modulus();
    T::lemma_modulus();
    vstd::arithmetic::div_mod::lemma_small_mod(e.as_int() as nat, m as nat);
}

/// The negation of a small offset is at that offset's torus distance from
/// zero.
proof fn lemma_negative_dist<T: TorusElement>(e: T, off: int, bound: int)
    requires
        0 < off <= bound,
        2 * bound < T::modulus(),
        e.as_int() == (0 - off) % T::modulus(),
    ensures
        torus_dist(e.as_int(), 0, T::modulus()) <= bound,
{
    let m = T::modulus();
    T::lemma_modulus();
    assert((0 - off) % m == m - off) by {
        vstd::arithmetic::div_mod::lemma_mod_add_multiples_vanish(0 - off, m);
        vstd::arithmetic::div_mod::lemma_small_mod((m - off) as nat, m as nat);
    }
    assert(e.as_int() % m == m - off) by {
        vstd::arithmetic::div_mod::lemma_small_mod((m - off) as nat, m as nat);
    }
}

} // verus!
