//! The source of randomness: the generators of the `rand` crate.
//!
//! A match draws from small generators of its own, which can be seeded. An
//! agent that plays at random draws from the generator of its thread.
//!
//! The state of a generator is opaque to the verifier. Of a generator made of
//! a seed the contracts say which one it is, by the name [`seeded`]. What they
//! say of a draw holds of every value that the generator can return; the
//! engine's own contracts therefore hold whatever is drawn.

use rand::rngs::SmallRng;
use rand::{Rng, SeedableRng};
use vstd::prelude::*;

verus! {

/// A seed for the generators of a match.
pub type RandomSeed = [u8; 32];

/// `rand::rngs::SmallRng`, declared so that a generator can be held in a field
/// and handed on. Nothing is known of its state.
#[verifier::external_type_specification]
#[verifier::external_body]
pub struct ExSmallRng(SmallRng);

/// The generator that `SmallRng::from_seed` makes of a seed.
///
/// The name says that the generator is a function of the seed alone: two
/// generators made of one seed are the same. It says nothing of the numbers
/// that a generator gives.
pub uninterp spec fn seeded(seed: Seq<u8>) -> SmallRng;

/// Calls `SmallRng::from_seed`, which makes a generator of the seed and of
/// nothing else: the generator returned is the one that the seed stands for.
#[verifier::external_body]
fn seeded_rng(seed: RandomSeed) -> (rng: SmallRng)
    ensures
        rng == seeded(seed@),
{
    SmallRng::from_seed(seed)
}

/// Calls `SmallRng::from_os_rng`, which seeds a generator from the operating
/// system. Nothing is claimed of the generator that it returns. The call
/// aborts the program if the operating system cannot supply the seed.
#[verifier::external_body]
fn os_rng() -> SmallRng {
    SmallRng::from_os_rng()
}

/// Calls `Rng::random_range` on the half-open range `low..high` of `u8`.
/// The range must not be empty; the value drawn lies in it.
#[verifier::external_body]
pub(crate) fn random_u8(rng: &mut SmallRng, low: u8, high: u8) -> (r: u8)
    requires
        low < high,
    ensures
        low <= r < high,
{
    rng.random_range(low..high)
}

/// Calls `Rng::random_range` on the half-open range `low..high` of `usize`.
/// The range must not be empty; the value drawn lies in it.
#[verifier::external_body]
pub(crate) fn random_index(rng: &mut SmallRng, low: usize, high: usize) -> (r: usize)
    requires
        low < high,
    ensures
        low <= r < high,
{
    rng.random_range(low..high)
}

/// Calls `Rng::random_ratio`, which returns `true` with a chance of
/// `numerator` in `denominator`. The denominator must not be zero nor smaller
/// than the numerator. A chance of one always gives `true`, a chance of zero
/// always `false`; of any other chance nothing is claimed.
#[verifier::external_body]
pub(crate) fn random_ratio(rng: &mut SmallRng, numerator: u32, denominator: u32) -> (r: bool)
    requires
        0 < denominator,
        numerator <= denominator,
    ensures
        numerator == denominator ==> r,
        numerator == 0 ==> !r,
{
    rng.random_ratio(numerator, denominator)
}

/// Calls `rand::rng`, the generator of the running thread, and on it
/// `Rng::random_range` for the range from 0 to `high`, both included. The
/// bound must not be negative; the number drawn lies in the range. The call
/// aborts the program if the operating system cannot supply the seed of the
/// thread's generator.
#[verifier::external_body]
pub(crate) fn random_upto(high: i32) -> (r: i32)
    requires
        0 <= high,
    ensures
        0 <= r <= high,
{
    rand::rng().random_range(0..=high)
}

/// A generator for a match: the generator of `seed` where a seed is given, so
/// that the match can be replayed, and one seeded by the operating system
/// otherwise.
///
/// Of a generator seeded by the operating system the contract claims nothing.
/// Whoever draws from a generator is promised, for each draw, what holds of
/// every number that can be drawn.
pub fn getrandom(seed: Option<RandomSeed>) -> (rng: SmallRng)
    ensures
        seed matches Some(given) ==> rng == seeded(given@),
{
    match seed {
        Some(seed) => seeded_rng(seed),
        None => os_rng(),
    }
}

} // verus!
