//! Plain-value model of the wall clock.
//!
//! The engine never reads the clock implicitly: every operation that needs
//! the current time takes a [`Moment`], a snapshot of "now" reduced to plain
//! values.  The one place the clock is actually read is [`Moment::now`],
//! whose outside calls sit behind a trusted gateway.

use vstd::prelude::*;

verus! {

/// Largest local-calendar day number the engine works with.  Day numbers
/// count days of the proleptic Gregorian calendar with January 1 of year 1
/// as day 1; this bound (around year 246,000) keeps every day the engine
/// touches inside the range the date library supports.
pub const MAX_DAY: u32 = 90_000_000;

/// A snapshot of the wall clock: the current moment as UTC seconds together
/// with the local calendar day and local time of day it falls on.
#[derive(Clone, Copy, Debug, PartialEq, Eq, Structural)]
pub struct Moment {
    /// Seconds since 1970-01-01 00:00:00 UTC, clamped to zero.
    pub utc_seconds: u64,
    /// Local calendar day number (January 1 of year 1 is day 1), clamped
    /// into `0 ..= MAX_DAY`.
    pub local_day: u32,
    /// Local hour of day, 0 to 23.
    pub hour: u32,
    /// Local minute of the hour, 0 to 59.
    pub minute: u32,
}

impl Moment {
    /// A moment carries a valid time of day and an in-range day number.
    pub open spec fn wf(self) -> bool {
        &&& self.hour < 24
        &&& self.minute < 60
        &&& self.local_day <= MAX_DAY
    }

    /// Read the wall clock, clamping the raw readings into the engine's
    /// plain-value ranges.
    pub fn now() -> (m: Moment)
        ensures
            m.wf(),
    {
        let (utc, day, hour, minute) = clock_now_parts();
        let utc_seconds: u64 = if utc < 0 {
            0
        } else {
            utc as u64
        };
        let local_day: u32 = if day < 0 {
            0
        } else if day > MAX_DAY as i32 {
            MAX_DAY
        } else {
            day as u32
        };
        Moment { utc_seconds, local_day, hour, minute }
    }
}

/// Relies on chrono: `Utc::now` and `Local::now` read the clock (nothing can
/// be promised about the moment itself), `DateTime::timestamp` is the UTC
/// second count, `Datelike::num_days_from_ce` is the local date's day number
/// (January 1 of year 1 is day 1), and `Timelike::hour` / `Timelike::minute`
/// are documented to return 0..=23 and 0..=59.
#[verifier::external_body]
fn clock_now_parts() -> (r: (i64, i32, u32, u32))
    ensures
        r.2 < 24,
        r.3 < 60,
{
    let utc = chrono::Utc::now().timestamp();
    let local = chrono::Local::now();
    let day = chrono::Datelike::num_days_from_ce(&local);
    let hour = chrono::Timelike::hour(&local);
    let minute = chrono::Timelike::minute(&local);
    (utc, day, hour, minute)
}

/// Day of month (1 to 31) of a local-calendar day number.  The value is
/// fixed by the Gregorian calendar alone, so it is left as a named,
/// uninterpreted function of the day number.
pub uninterp spec fn day_of_month_of(day: int) -> int;

/// Relies on chrono: `NaiveDate::from_num_days_from_ce_opt` turns a day
/// number into a date and is documented to return `Some` for every date the
/// library supports, a range that contains `0 ..= MAX_DAY`; `Datelike::day`
/// is the day of month, documented to start from 1.
#[verifier::external_body]
pub(crate) fn day_of_month(day: u32) -> (d: u32)
    requires
        day <= MAX_DAY,
    ensures
        d as int == day_of_month_of(day as int),
        1 <= d <= 31,
{
    let date = chrono::NaiveDate::from_num_days_from_ce_opt(day as i32).unwrap();
    chrono::Datelike::day(&date)
}

} // verus!
