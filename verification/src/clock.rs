//! Instants as nanoseconds since the Unix epoch.
use vstd::prelude::*;

verus! {

/// Nanoseconds in a second.
pub const SECOND: i128 = 1_000_000_000;

/// The seconds from the Unix epoch to the end of the calendar of `chrono`, with the year 262142.
pub const CALENDAR_END: i64 = 8_210_266_876_800;

/// `chrono::Utc::now`, as whole seconds since the Unix epoch and nanoseconds: an instant of the
/// calendar, and not one before the epoch. More is not promised of the time of day.
#[verifier::external_body]
fn utc_now() -> (now: (i64, u32))
    ensures
        0 <= now.0 < CALENDAR_END,
        now.1 < 1_000_000_000,
{
    let now = chrono::Utc::now();
    (now.timestamp(), now.timestamp_subsec_nanos())
}

/// The instant `nanoseconds` after `seconds` whole seconds since the Unix epoch.
pub fn instant(seconds: i64, nanoseconds: u32) -> (i: i128)
    ensures
        i == seconds * 1_000_000_000 + nanoseconds,
{
    seconds as i128 * SECOND + nanoseconds as i128
}

/// The present instant.
pub fn now() -> (i: i128)
    ensures
        0 <= i < CALENDAR_END * 1_000_000_000,
{
    let (seconds, nanoseconds) = utc_now();
    instant(seconds, nanoseconds)
}

/// The whole seconds in `nanoseconds`, rounded toward zero.
pub open spec fn whole_seconds(nanoseconds: int) -> int {
    if nanoseconds >= 0 {
        nanoseconds / 1_000_000_000
    } else {
        -((-nanoseconds) / 1_000_000_000)
    }
}

} // verus!
