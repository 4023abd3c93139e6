use vstd::prelude::*;
use rand::Rng;

verus! {

/// A number drawn from `low` up to, but not including, `high`.
///
/// Calls `Rng::gen_range` of the crate rand on the generator of the current
/// thread, which refuses an empty range and returns a value of the range.
/// Nothing is claimed about which value comes out.
#[verifier::external_body]
pub(crate) fn random_range(low: i32, high: i32) -> (n: i32)
    requires
        low < high,
    ensures
        low <= n < high,
{
    rand::thread_rng().gen_range(low, high)
}

/// The toss of a fair coin.
///
/// Calls `rand::random` for a `bool`. Nothing is claimed about the outcome.
#[verifier::external_body]
pub(crate) fn random_bool() -> (b: bool) {
    rand::random()
}

/// A toss that comes up true `numerator` times out of `denominator`.
///
/// Calls `Rng::gen_ratio` of the crate rand on the generator of the current
/// thread, which refuses a zero denominator and a numerator beyond the
/// denominator. Of the outcome only what rand documents is claimed: a ratio
/// of one is always true, a ratio of zero never.
#[verifier::external_body]
pub(crate) fn random_ratio(numerator: u32, denominator: u32) -> (b: bool)
    requires
        0 < denominator,
        numerator <= denominator,
    ensures
        numerator == denominator ==> b,
        numerator == 0 ==> !b,
{
    rand::thread_rng().gen_ratio(numerator, denominator)
}

} // verus!
