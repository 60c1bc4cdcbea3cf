//! The simulation's only source of randomness.
//!
//! A drawn value depends on the thread-local generator's state, so nothing
//! is promised of it beyond its range; every caller is verified for every
//! value the range admits.

use vstd::prelude::*;

verus! {

/// Relies on rand's `Rng::gen_range` over `thread_rng`: a random value in
/// the closed range, and nothing more than its bounds.
#[verifier::external_body]
pub fn rand_range_i64(lo: i64, hi: i64) -> (r: i64)
    requires
        lo <= hi,
    ensures
        lo <= r <= hi,
{
    rand::Rng::gen_range(&mut rand::thread_rng(), lo..=hi)
}

} // verus!
