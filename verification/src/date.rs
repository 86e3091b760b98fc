use vstd::prelude::*;

use chrono::Datelike;
use chrono::LocalResult;
use chrono::TimeZone;

verus! {

/// Seconds from the Unix epoch to 9999-01-01 00:00:00 UTC. Every timestamp
/// from the epoch up to here falls on a four-digit year in every time zone.
pub const MAX_BUCKET_SECS: i64 = 253_370_764_800;

/// A calendar date in the machine's local time zone, used only to derive the
/// destination bucket of an asset. Years are limited to what the four-digit
/// directory layout can name.
#[derive(Clone, Copy, Debug, PartialEq, Eq)]
pub struct Date {
    pub year: u32,
    pub month: u32,
    pub day: u32,
}

impl Date {
    pub open spec fn wf(self) -> bool {
        &&& self.year <= 9999
        &&& 1 <= self.month <= 12
        &&& 1 <= self.day <= 31
    }

    /// Builds a date from raw calendar fields; `None` exactly when a field
    /// lies outside the range the archive layout can represent.
    pub fn from_ymd(year: i32, month: u32, day: u32) -> (r: Option<Date>)
        ensures
            r is Some <==> (0 <= year <= 9999 && 1 <= month <= 12 && 1 <= day <= 31),
            r matches Some(d) ==> d.year == year && d.month == month && d.day == day && d.wf(),
    {
        if 0 <= year && year <= 9999 && 1 <= month && month <= 12 && 1 <= day && day <= 31 {
            Some(Date { year: year as u32, month, day })
        } else {
            None
        }
    }

    pub fn is_wf(&self) -> (r: bool)
        ensures
            r == self.wf(),
    {
        self.year <= 9999 && 1 <= self.month && self.month <= 12 && 1 <= self.day && self.day
            <= 31
    }
}

/// Relies on chrono: `TimeZone::timestamp_opt` on `Local` maps seconds since
/// the Unix epoch to a local date and time, and the `Datelike` accessors
/// `year`, `month` and `day` read its calendar fields, with `month`
/// documented in `1..=12` and `day` in `1..=31`. chrono documents that
/// `timestamp_opt` returns `None` only for an out-of-range number of
/// seconds, and otherwise always a single result; its time zone offsets
/// stay within a day of UTC, so a timestamp between the epoch and
/// 9999-01-01 UTC maps to a date whose year has four digits in every time
/// zone. Which date that is depends on the machine's time zone, so nothing
/// more is assumed of it.
#[verifier::external_body]
fn local_ymd(secs: i64) -> (r: Option<(i32, u32, u32)>)
    ensures
        r matches Some(ymd) ==> 1 <= ymd.1 <= 12 && 1 <= ymd.2 <= 31,
        r is None ==> !(0 <= secs <= MAX_BUCKET_SECS),
        r matches Some(ymd) ==> (0 <= secs <= MAX_BUCKET_SECS ==> 0 <= ymd.0 <= 9999),
{
    match chrono::Local.timestamp_opt(secs, 0) {
        LocalResult::Single(t) => Some((t.year(), t.month(), t.day())),
        _ => None,
    }
}

/// The local calendar date that a modification timestamp falls on; `None`
/// when the timestamp is outside chrono's range or the year cannot be named
/// by the four-digit archive layout. Success is owed on every timestamp
/// between the epoch and 9999-01-01 UTC.
pub fn date_of_timestamp(secs: i64) -> (r: Option<Date>)
    ensures
        r matches Some(d) ==> d.wf(),
        0 <= secs <= MAX_BUCKET_SECS ==> r is Some,
{
    match local_ymd(secs) {
        Some((y, m, d)) => Date::from_ymd(y, m, d),
        None => None,
    }
}

} // verus!
