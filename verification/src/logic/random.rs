//! The two random draws of the game, made with the thread-local generator of
//! the `rand` crate. Nothing is known of a draw but its range.

use rand::Rng;
use vstd::prelude::*;

verus! {

/// `Rng::gen_range` on `0..bound` with the thread-local generator: some
/// number of the range. An empty range is not admitted.
#[verifier::external_body]
pub(crate) fn draw_below(bound: i32) -> (chosen: i32)
    requires
        0 < bound,
    ensures
        0 <= chosen < bound,
{
    rand::thread_rng().gen_range(0..bound)
}

/// `Rng::gen_ratio` with the thread-local generator: `true` with a chance
/// of `numerator` in `denominator`. Nothing is promised of a single draw.
#[verifier::external_body]
pub(crate) fn draw_ratio(numerator: u32, denominator: u32) -> (hit: bool)
    requires
        0 < denominator,
        numerator <= denominator,
{
    rand::thread_rng().gen_ratio(numerator, denominator)
}

} // verus!
