//! The random draws of map generation, taken from the thread-local generator
//! of the `rand` crate. Nothing is proved about these functions: their
//! contracts restate what `rand` documents.
//!
//! `rand::thread_rng` panics if the operating system cannot seed the
//! generator. No argument of these functions brings that about or prevents
//! it, so no contract speaks of it.

use rand::Rng;
use vstd::prelude::*;

verus! {

/// Draws an integer with `rand::Rng::gen_range` on `rand::thread_rng()`.
///
/// `rand` documents the result as lying in the half-open range from `low`
/// (included) to `high` (excluded) and the call as panicking unless
/// `low < high`. Which value of the range comes back is left open.
#[verifier::external_body]
pub(crate) fn random_range(low: i32, high: i32) -> (r: i32)
    requires
        low < high,
    ensures
        low <= r < high,
{
    rand::thread_rng().gen_range(low, high)
}

/// Draws a boolean with `rand::random`. Nothing is known about the result.
#[verifier::external_body]
pub(crate) fn random_bool() -> (r: bool) {
    rand::random()
}

/// Draws a boolean with `rand::Rng::gen_ratio` on `rand::thread_rng()`, which
/// is true with probability `numerator / denominator`.
///
/// `rand` documents the call as panicking when `denominator` is zero or
/// smaller than `numerator`, and the result as certainly true when the two
/// are equal and certainly false when `numerator` is zero. Otherwise the
/// result is left open.
#[verifier::external_body]
pub(crate) fn random_ratio(numerator: u32, denominator: u32) -> (r: bool)
    requires
        0 < denominator,
        numerator <= denominator,
    ensures
        numerator == denominator ==> r,
        numerator == 0 ==> !r,
{
    rand::thread_rng().gen_ratio(numerator, denominator)
}

} // verus!
