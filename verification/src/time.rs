//! The wall-clock source the driver feeds into the tick.

use vstd::prelude::*;

verus! {

/// Relies on std's `SystemTime`: milliseconds since the Unix epoch, by
/// `SystemTime::now` and `duration_since(UNIX_EPOCH)`. A clock reading
/// depends on the machine, so nothing is promised of the value; a clock
/// before the epoch yields 0 rather than a panic.
#[verifier::external_body]
pub fn current_time() -> (r: u64)
{
    std::time::SystemTime::now()
        .duration_since(std::time::UNIX_EPOCH)
        .map(|d| d.as_millis() as u64)
        .unwrap_or(0)
}

} // verus!
