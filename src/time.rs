//! The timestamp of a record.
use vstd::prelude::*;

use chrono::{Datelike, Timelike};

verus! {

/// A point in time in UTC, as calendar date and time of day.
#[derive(Debug, Clone, Copy, PartialEq, Eq, Structural)]
pub struct Timestamp {
    pub year: i32,
    /// 1 to 12.
    pub month: u32,
    /// 1 to 31.
    pub day: u32,
    pub hour: u32,
    pub minute: u32,
    pub second: u32,
    /// Nanoseconds since the last whole second.
    pub nanosecond: u32,
}

impl Timestamp {
    /// The fields lie in the ranges of a calendar date and a time of day; a
    /// nanosecond count from one second on marks a leap second.
    pub open spec fn wf(&self) -> bool {
        &&& 1 <= self.month <= 12
        &&& 1 <= self.day <= 31
        &&& self.hour <= 23
        &&& self.minute <= 59
        &&& self.second <= 59
        &&& self.nanosecond < 2_000_000_000
    }
}

/// What reading `s` as an RFC 3339 timestamp gives: the point in time, or
/// the message of the failure.
pub uninterp spec fn timestamp_from(s: Seq<char>) -> Result<Timestamp, Seq<char>>;

/// Relies on chrono's `FromStr` for `DateTime<Utc>`, which reads a relaxed
/// form of RFC 3339 and converts it to UTC, and on the `Display` of chrono's
/// `ParseError` for the message. Both depend on the text alone. The ranges
/// of the fields are those that chrono's `Datelike` and `Timelike` accessors
/// document.
#[verifier::external_body]
pub(crate) fn read_timestamp(s: &str) -> (r: Result<Timestamp, String>)
    ensures
        match (r, timestamp_from(s@)) {
            (Ok(t), Ok(u)) => t == u,
            (Err(e), Err(m)) => e@ == m,
            _ => false,
        },
        r matches Ok(t) ==> t.wf(),
{
    match s.parse::<chrono::DateTime<chrono::Utc>>() {
        Ok(t) => Ok(
            Timestamp {
                year: t.year(),
                month: t.month(),
                day: t.day(),
                hour: t.hour(),
                minute: t.minute(),
                second: t.second(),
                nanosecond: t.nanosecond(),
            },
        ),
        Err(e) => Err(e.to_string()),
    }
}

/// The date `year`-`month`-`day` written as `%Y-%m-%d`, if it is a date of
/// the proleptic Gregorian calendar.
pub uninterp spec fn day_text_of(year: int, month: nat, day: nat) -> Option<Seq<char>>;

/// Relies on chrono's `NaiveDate::from_ymd_opt`, which gives the date or
/// nothing when the values name none, and on its `format("%Y-%m-%d")`. Both
/// depend on the values alone.
#[verifier::external_body]
pub(crate) fn format_day(year: i32, month: u32, day: u32) -> (r: Option<String>)
    ensures
        match (r, day_text_of(year as int, month as nat, day as nat)) {
            (Some(t), Some(u)) => t@ == u,
            (None, None) => true,
            _ => false,
        },
{
    match chrono::NaiveDate::from_ymd_opt(year, month, day) {
        Some(d) => Some(d.format("%Y-%m-%d").to_string()),
        None => None,
    }
}

} // verus!
