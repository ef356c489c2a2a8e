//! The source of randomness that every effect draws from.
//!
//! The generator itself is the `rand` crate's; this module states what the
//! effects may rely on whatever the generator hands out.

use rand::rngs::StdRng;
use rand::Rng;
use rand::SeedableRng;
use vstd::prelude::*;

verus! {

/// The standard generator of `rand`. Nothing of its state is known here.
#[verifier::external_type_specification]
#[verifier::external_body]
pub struct ExStdRng(StdRng);

/// `SeedableRng::seed_from_u64` of `rand`, for its standard generator. Nothing
/// is claimed of the generator that comes back.
#[verifier::external_body]
fn seeded_generator(seed: u64) -> StdRng {
    StdRng::seed_from_u64(seed)
}

/// `SeedableRng::try_from_os_rng` of `rand`, for its standard generator; `None`
/// where the operating system gave no entropy. Nothing is claimed of the
/// generator that comes back.
#[verifier::external_body]
fn entropy_generator() -> Option<StdRng> {
    StdRng::try_from_os_rng().ok()
}

/// `Rng::random_range` of `rand` over `0..bound`. Claimed: the value lies in
/// that range. The call panics on an empty range, which `requires` leaves out.
#[verifier::external_body]
fn uniform_below(generator: &mut StdRng, bound: u64) -> (value: u64)
    requires
        bound > 0,
    ensures
        value < bound,
{
    generator.random_range(0..bound)
}

/// `Rng::random_ratio` of `rand`. Claimed, as its documentation guarantees:
/// zero chances never hit, and as many chances as the denominator always hit.
/// The call panics on a zero denominator and on a ratio above one, which
/// `requires` leaves out.
#[verifier::external_body]
fn bernoulli(generator: &mut StdRng, numerator: u32, denominator: u32) -> (hit: bool)
    requires
        denominator > 0,
        numerator <= denominator,
    ensures
        numerator == 0 ==> !hit,
        numerator == denominator ==> hit,
{
    generator.random_ratio(numerator, denominator)
}

/// A stateful generator, kept across all the draws of one effect.
pub struct RandomSource {
    generator: StdRng,
}

impl RandomSource {
    /// A generator whose draws are reproducible from `seed`.
    pub fn from_seed(seed: u64) -> RandomSource {
        RandomSource { generator: seeded_generator(seed) }
    }

    /// A generator seeded with fresh entropy from the operating system, if it
    /// provides any.
    pub fn from_entropy() -> Option<RandomSource> {
        match entropy_generator() {
            Some(generator) => Some(RandomSource { generator }),
            None => None,
        }
    }

    /// A position in a buffer of `bound` bytes.
    pub fn below(&mut self, bound: usize) -> (value: usize)
        requires
            bound > 0,
        ensures
            value < bound,
    {
        let drawn: u64 = uniform_below(&mut self.generator, bound as u64);
        drawn as usize
    }

    /// A value in `low..high`.
    pub fn between(&mut self, low: u32, high: u32) -> (value: u32)
        requires
            low < high,
        ensures
            low <= value < high,
    {
        let span: u64 = (high - low) as u64;
        let drawn: u64 = uniform_below(&mut self.generator, span);
        low + (drawn as u32)
    }

    /// Any byte.
    pub fn byte(&mut self) -> u8 {
        let drawn: u64 = uniform_below(&mut self.generator, 256);
        drawn as u8
    }

    /// `true` with `numerator` chances in `denominator`.
    pub fn chance(&mut self, numerator: u32, denominator: u32) -> (hit: bool)
        requires
            denominator > 0,
            numerator <= denominator,
        ensures
            numerator == 0 ==> !hit,
            numerator == denominator ==> hit,
    {
        bernoulli(&mut self.generator, numerator, denominator)
    }
}

} // verus!
