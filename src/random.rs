//! Draws from the thread-local generator of `rand`.

use rand::Rng;
use vstd::prelude::*;

verus! {

/// Relies on `rand::Rng::gen_range` over an inclusive range: the value lies
/// between the two bounds (it panics on an empty range, which `requires` rules out).
#[verifier::external_body]
pub(crate) fn random_between(lo: i64, hi: i64) -> (r: i64)
    requires
        lo <= hi,
    ensures
        lo <= r <= hi,
{
    rand::thread_rng().gen_range(lo..=hi)
}

/// Relies on `rand::Rng::gen::<bool>`: a fair coin; nothing is promised of the outcome.
#[verifier::external_body]
pub(crate) fn coin_flip() -> (r: bool) {
    rand::thread_rng().gen::<bool>()
}

} // verus!
