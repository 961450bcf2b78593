//! The source of the simulation's random draws: a generator of the `rand`
//! crate that is seeded by the caller, so that a run can be repeated.

use rand::Rng;
use rand::SeedableRng;
use vstd::prelude::*;

verus! {

/// The whole of a probability: probabilities are counted in parts of this
/// number, two to the power of 24.
pub const PROBABILITY_ONE: u32 = 0x100_0000;

/// Largest size of the noise that is added to the heading of a walking
/// sheep, in microradians.
pub const HEADING_NOISE_MICRORAD: i32 = 408_200;

#[verifier::external_type_specification]
#[verifier::external_body]
pub struct ExStdRng(rand::rngs::StdRng);

/// The generator that `SeedableRng::seed_from_u64` makes of a seed.
pub uninterp spec fn seeded_generator(seed: u64) -> rand::rngs::StdRng;

/// `SeedableRng::seed_from_u64` for `StdRng`: the generator of the seed. The
/// seed is spread over the generator's state by a fixed computation, so the
/// same seed gives the same generator. Nothing is claimed of what it draws.
#[verifier::external_body]
fn rng_from_seed(seed: u64) -> (rng: rand::rngs::StdRng)
    ensures
        rng == seeded_generator(seed),
{
    rand::rngs::StdRng::seed_from_u64(seed)
}

/// `Rng::gen_ratio`: true with a probability of `numerator` in
/// `denominator`. As the crate documents, the draw is certainly false for a
/// numerator of zero and certainly true for a numerator equal to the
/// denominator; it panics for a denominator of zero and for a numerator
/// above the denominator.
#[verifier::external_body]
fn rng_ratio(rng: &mut rand::rngs::StdRng, numerator: u32, denominator: u32) -> (hit: bool)
    requires
        denominator > 0,
        numerator <= denominator,
    ensures
        numerator == 0 ==> !hit,
        numerator == denominator ==> hit,
{
    rng.gen_ratio(numerator, denominator)
}

/// `Rng::gen_range`: a number drawn evenly from `low` up to, and not
/// including, `high`. It panics unless `low` is below `high`.
#[verifier::external_body]
fn rng_range(rng: &mut rand::rngs::StdRng, low: i32, high: i32) -> (drawn: i32)
    requires
        low < high,
    ensures
        low <= drawn < high,
{
    rng.gen_range(low, high)
}

/// What a draw with a chance of `parts` in `PROBABILITY_ONE` may give: a
/// chance of nothing never hits, and the whole chance always does.
pub open spec fn may_draw(parts: u32, hit: bool) -> bool {
    &&& parts == 0 ==> !hit
    &&& parts >= PROBABILITY_ONE ==> hit
}

/// The simulation's random draws.
pub struct Dice {
    rng: rand::rngs::StdRng,
}

impl Dice {
    /// The dice whose generator is that of `seed`.
    pub closed spec fn of_seed(seed: u64) -> Dice {
        Dice { rng: seeded_generator(seed) }
    }

    /// The dice whose draws follow from `seed`: the same seed gives the same
    /// dice.
    pub fn new(seed: u64) -> (dice: Dice)
        ensures
            dice == Dice::of_seed(seed),
    {
        Dice { rng: rng_from_seed(seed) }
    }

    /// A draw that hits with a chance of `parts` in `PROBABILITY_ONE`, and
    /// certainly where `parts` is that much or more.
    pub fn chance(&mut self, parts: u32) -> (hit: bool)
        ensures
            may_draw(parts, hit),
    {
        if parts >= PROBABILITY_ONE {
            true
        } else {
            rng_ratio(&mut self.rng, parts, PROBABILITY_ONE)
        }
    }

    /// The noise for the heading of a walking sheep: an angle in
    /// microradians, drawn evenly from those whose size is at most
    /// `HEADING_NOISE_MICRORAD`.
    pub fn heading_noise(&mut self) -> (angle: i32)
        ensures
            -HEADING_NOISE_MICRORAD <= angle <= HEADING_NOISE_MICRORAD,
    {
        rng_range(&mut self.rng, -HEADING_NOISE_MICRORAD, HEADING_NOISE_MICRORAD + 1)
    }
}

} // verus!
