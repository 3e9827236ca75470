//! The random choices of the game, drawn from the thread-local generator of `rand`.
use crate::map::Point;
use rand::seq::SliceRandom;
use rand::Rng;
use vstd::prelude::*;

verus! {

/// Relies on `rand::Rng::random_ratio`: true with chance `numerator / denominator`;
/// it never returns true when `numerator` is 0 and always does when the two are
/// equal, and it panics when `denominator` is 0 or below `numerator`.
#[verifier::external_body]
pub(crate) fn roll_ratio(numerator: u32, denominator: u32) -> (r: bool)
    requires
        0 < denominator,
        numerator <= denominator,
    ensures
        numerator == 0 ==> !r,
        numerator == denominator ==> r,
{
    rand::rng().random_ratio(numerator, denominator)
}

/// Relies on `rand::Rng::random_range` over `0..n`: a value in that range, which
/// panics when the range is empty.
#[verifier::external_body]
pub(crate) fn random_below(n: usize) -> (r: usize)
    requires
        0 < n,
    ensures
        r < n,
{
    rand::rng().random_range(0..n)
}

/// Relies on `rand::seq::SliceRandom::shuffle`: the items are put in a random order,
/// none added or lost.
#[verifier::external_body]
pub(crate) fn shuffle_points(v: &mut Vec<Point>)
    ensures
        final(v)@.to_multiset() == old(v)@.to_multiset(),
{
    v.shuffle(&mut rand::rng());
}

} // verus!
