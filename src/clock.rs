//! Points in time, as whole seconds since the Unix epoch.
use vstd::prelude::*;

verus! {

/// Earliest second that the system clock can report.
pub const EARLIEST_SECOND: i64 = -377705023201;

/// Latest second that the system clock can report.
pub const LATEST_SECOND: i64 = 253402207200;

/// An instant, counted in whole seconds since 1970-01-01T00:00:00Z.
#[derive(Clone, Copy, Debug, PartialEq, Eq, Structural)]
pub struct Timestamp {
    pub second: i64,
}

impl Timestamp {
    pub fn from_second(second: i64) -> (r: Timestamp)
        ensures
            r.second == second,
    {
        Timestamp { second }
    }

    /// The current time, read from the system clock.
    pub fn now() -> (r: Timestamp)
        ensures
            EARLIEST_SECOND <= r.second <= LATEST_SECOND,
    {
        Timestamp { second: system_second() }
    }

    /// This instant moved `secs` seconds later, held at the latest
    /// representable second.
    pub fn saturating_add(self, secs: u64) -> (r: Timestamp)
        ensures
            r.second == later_by(self.second as int, secs as int),
    {
        let sum: i128 = self.second as i128 + secs as i128;
        if sum > i64::MAX as i128 {
            Timestamp { second: i64::MAX }
        } else {
            Timestamp { second: sum as i64 }
        }
    }
}

/// `second + secs`, held at the largest `i64`.
pub open spec fn later_by(second: int, secs: int) -> int {
    if second + secs > i64::MAX {
        i64::MAX as int
    } else {
        second + secs
    }
}

/// Relies on jiff::Timestamp::now and Timestamp::as_second: the whole seconds of
/// the current system time, which jiff keeps within its supported range.
#[verifier::external_body]
fn system_second() -> (r: i64)
    ensures
        EARLIEST_SECOND <= r <= LATEST_SECOND,
{
    jiff::Timestamp::now().as_second()
}

} // verus!
