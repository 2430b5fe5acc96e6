//! Trusted draws from the process's random number generator. Every verified
//! caller states only what holds of all possible outcomes.

use rand::RngExt;
use vstd::prelude::*;

verus! {

/// Relies on rand::random::<bool>: a fair coin flip from the thread-local
/// generator. Nothing can be promised of the outcome.
#[verifier::external_body]
pub(crate) fn coin_flip() -> bool {
    rand::random::<bool>()
}

/// Relies on rand::RngExt::random_range over `lo..hi`: the draw lies in the
/// half-open range. rand panics on an empty range, so one is required out.
#[verifier::external_body]
pub(crate) fn random_in_range(lo: i64, hi: i64) -> (r: i64)
    requires
        lo < hi,
    ensures
        lo <= r < hi,
{
    rand::rng().random_range(lo..hi)
}

/// Relies on rand::RngExt::random_range over `0..len`: an index into a
/// non-empty collection. rand panics on an empty range, so one is required
/// out.
#[verifier::external_body]
pub(crate) fn random_index(len: usize) -> (r: usize)
    requires
        len > 0,
    ensures
        r < len,
{
    rand::rng().random_range(0..len)
}

} // verus!
