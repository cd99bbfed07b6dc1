//! The random source that the simulation and the trainer draw from.

use rand::rngs::SmallRng;
use rand::Rng;
use vstd::prelude::*;

verus! {

/// `rand::rngs::SmallRng`, the generator that callers hand to the library.
/// Nothing is known of its state.
#[verifier::external_type_specification]
#[verifier::external_body]
pub struct ExSmallRng(SmallRng);

/// Calls `Rng::gen_range` of the rand crate on the half-open range
/// `low..high`. That function panics on an empty range, which the
/// precondition excludes; all that is claimed of the result is that it lies
/// in the range.
#[verifier::external_body]
pub(crate) fn draw_range(rng: &mut SmallRng, low: i64, high: i64) -> (r: i64)
    requires
        low < high,
    ensures
        low <= r < high,
{
    rng.gen_range(low..high)
}

/// A draw from `0..n`.
pub fn draw_below(rng: &mut SmallRng, n: u32) -> (r: u32)
    requires
        n > 0,
    ensures
        r < n,
{
    let r: i64 = draw_range(rng, 0, n as i64);
    r as u32
}

/// A draw from `-spread..=spread`.
pub fn draw_within(rng: &mut SmallRng, spread: u32) -> (r: i64)
    ensures
        -(spread as int) <= r <= spread as int,
{
    draw_range(rng, -(spread as i64), spread as i64 + 1)
}

} // verus!
