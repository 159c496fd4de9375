//! Points in local time, read from and written as the log's date texts.
use vstd::prelude::*;

use chrono::{DateTime, NaiveDate, NaiveDateTime};

verus! {

/// A local wall-clock time without a time zone, held as the number of
/// seconds from 1970-01-01 00:00:00 to it.
#[derive(Debug, Clone, Copy, PartialEq, Eq, Structural)]
pub struct Timestamp {
    pub seconds: i64,
}

/// What chrono reads from a `YYYY-MM-DD HH:MM` text, in seconds.
pub uninterp spec fn minute_stamp_of(s: Seq<char>) -> Option<i64>;

/// What chrono reads from a `YYYY-MM-DDTHH:MM:SS±HHMM` text, as the local
/// time written there, in seconds.
pub uninterp spec fn zoned_stamp_of(s: Seq<char>) -> Option<i64>;

/// The calendar time of the given fields, in seconds, where they name one.
pub uninterp spec fn stamp_of_fields(
    year: i32,
    month: u32,
    day: u32,
    hour: u32,
    minute: u32,
    second: u32,
) -> Option<i64>;

/// The text `YYYY-MM-DD HH:MM:SS` of a time given in seconds.
pub uninterp spec fn stamp_text_of(seconds: i64) -> Seq<char>;

/// Relies on `chrono::NaiveDateTime::parse_from_str` with the format
/// `%Y-%m-%d %H:%M`, and on `and_utc().timestamp()` to count the seconds.
#[verifier::external_body]
fn minute_stamp(s: &str) -> (r: Option<i64>)
    ensures
        r == minute_stamp_of(s@),
{
    NaiveDateTime::parse_from_str(s, "%Y-%m-%d %H:%M").ok().map(|d| d.and_utc().timestamp())
}

/// Relies on `chrono::DateTime::parse_from_str` with the format
/// `%Y-%m-%dT%H:%M:%S%z`, keeping the local time (`naive_local`).
#[verifier::external_body]
fn zoned_stamp(s: &str) -> (r: Option<i64>)
    ensures
        r == zoned_stamp_of(s@),
{
    DateTime::parse_from_str(s, "%Y-%m-%dT%H:%M:%S%z").ok().map(
        |d| d.naive_local().and_utc().timestamp(),
    )
}

/// Relies on `chrono::NaiveDate::from_ymd_opt` and `NaiveDate::and_hms_opt`:
/// `None` where the fields name no calendar time.
#[verifier::external_body]
fn fields_stamp(
    year: i32,
    month: u32,
    day: u32,
    hour: u32,
    minute: u32,
    second: u32,
) -> (r: Option<i64>)
    ensures
        r == stamp_of_fields(year, month, day, hour, minute, second),
{
    NaiveDate::from_ymd_opt(year, month, day).and_then(|d| d.and_hms_opt(hour, minute, second)).map(
        |d| d.and_utc().timestamp(),
    )
}

/// Relies on `chrono::DateTime::from_timestamp` and the `Display` of
/// `NaiveDateTime` (`%Y-%m-%d %H:%M:%S`).
#[verifier::external_body]
fn stamp_text(seconds: i64) -> (r: String)
    ensures
        r@ == stamp_text_of(seconds),
{
    DateTime::from_timestamp(seconds, 0).map(|d| d.naive_utc().to_string()).unwrap_or_default()
}

/// The time a log's date text stands for: the minute form first, else the
/// form with seconds and an offset.
pub open spec fn stamp_of_text(s: Seq<char>) -> Option<i64> {
    match minute_stamp_of(s) {
        Some(x) => Some(x),
        None => zoned_stamp_of(s),
    }
}

pub open spec fn as_stamp(o: Option<i64>) -> Option<Timestamp> {
    match o {
        Some(x) => Some(Timestamp { seconds: x }),
        None => None,
    }
}

impl Timestamp {
    /// Reads a `YYYY-MM-DD HH:MM` text.
    pub fn parse_minutes(s: &str) -> (r: Option<Timestamp>)
        ensures
            r == as_stamp(minute_stamp_of(s@)),
    {
        match minute_stamp(s) {
            Some(x) => Some(Timestamp { seconds: x }),
            None => None,
        }
    }

    /// Reads a date text of the log, in either of its two forms.
    pub fn parse_log_date(s: &str) -> (r: Option<Timestamp>)
        ensures
            r == as_stamp(stamp_of_text(s@)),
    {
        match minute_stamp(s) {
            Some(x) => Some(Timestamp { seconds: x }),
            None => match zoned_stamp(s) {
                Some(x) => Some(Timestamp { seconds: x }),
                None => None,
            },
        }
    }

    /// The time of the given calendar fields, where they name one.
    pub fn from_ymd_hms(
        year: i32,
        month: u32,
        day: u32,
        hour: u32,
        minute: u32,
        second: u32,
    ) -> (r: Option<Timestamp>)
        ensures
            r == as_stamp(stamp_of_fields(year, month, day, hour, minute, second)),
    {
        match fields_stamp(year, month, day, hour, minute, second) {
            Some(x) => Some(Timestamp { seconds: x }),
            None => None,
        }
    }

    /// The text `YYYY-MM-DD HH:MM:SS` of the time.
    pub fn text(&self) -> (r: String)
        ensures
            r@ == stamp_text_of(self.seconds),
    {
        stamp_text(self.seconds)
    }
}

} // verus!
