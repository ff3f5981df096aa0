//! The system's clock.

use vstd::prelude::*;

verus! {

/// Reads `std::time::SystemTime::now`, in milliseconds since the Unix epoch, zero
/// where the clock stands before it. Nothing is promised of the result.
#[verifier::external_body]
pub(crate) fn now_ms() -> (r: u64) {
    std::time::SystemTime::now().duration_since(std::time::UNIX_EPOCH).map(
        |d| d.as_millis() as u64,
    ).unwrap_or(0)
}

/// The UTC day that a moment falls on, in days since the epoch.
pub open spec fn day_of(ms: u64) -> u32 {
    (ms / 86_400_000) as u32
}

/// The UTC day that a moment falls on, in days since the epoch.
pub fn utc_day_of(ms: u64) -> (r: u32)
    ensures
        r == day_of(ms),
{
    (ms / 86_400_000) as u32
}

/// Number of days since the Unix epoch in UTC, by the system's clock. Which day
/// that is, nothing here decides.
pub(crate) fn utc_day_number() -> (r: u32) {
    let ms: u64 = now_ms();
    utc_day_of(ms)
}

/// A moment lies in its day, which is a whole number of days of twenty-four hours after
/// the epoch; the next day starts only after it.
pub proof fn law_a_moment_lies_in_its_day(ms: u64)
    requires
        ms / 86_400_000 <= u32::MAX,
    ensures
        day_of(ms) * 86_400_000 <= ms,
        ms < (day_of(ms) + 1) * 86_400_000,
{
}

} // verus!
