//! Access to the wall clock.  The two trusted wrappers read the system time
//! through chrono; everything that depends on a time value takes it as a
//! plain argument, so the rest of the crate is verified for every reading
//! the clock could produce.

use vstd::prelude::*;
use crate::intervals::{valid_time, MAX_TIMESTAMP};

verus! {

/// Relies on chrono's `Utc::now` and `DateTime::timestamp`: the current
/// instant as whole seconds since the Unix epoch.  Nothing can be promised
/// of a clock reading, so the caller bounds it.
#[verifier::external_body]
fn now_unix() -> (t: i64) {
    chrono::Utc::now().timestamp()
}

/// Relies on chrono's `Local::now`, `Datelike::num_days_from_ce`,
/// `Timelike::hour` and `Timelike::minute`: the local calendar day as a day
/// count in the proleptic Gregorian calendar, and the local time of day.
/// chrono documents the hour as 0 to 23 and the minute as 0 to 59.
#[verifier::external_body]
fn local_clock() -> (r: (i32, u32, u32))
    ensures
        r.1 < 24,
        r.2 < 60,
{
    let now = chrono::Local::now();
    (
        chrono::Datelike::num_days_from_ce(&now),
        chrono::Timelike::hour(&now),
        chrono::Timelike::minute(&now),
    )
}

/// The current time in seconds since the Unix epoch, clamped into the
/// engine's representable range.
pub fn current_time() -> (t: i64)
    ensures
        valid_time(t),
{
    let raw = now_unix();
    if raw < 0 {
        0
    } else if raw > MAX_TIMESTAMP {
        MAX_TIMESTAMP
    } else {
        raw
    }
}

/// The local calendar day (a day count usable as an opaque key) and the
/// minute of that day.
pub fn local_day_minute() -> (r: (i32, u16))
    ensures
        r.1 < 1440,
{
    let (day, hour, minute) = local_clock();
    (day, (hour * 60 + minute) as u16)
}

} // verus!
