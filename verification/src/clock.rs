//! Calendar and clock readings taken from `chrono`.
//!
//! The parsing of RFC 3339 timestamps and of `%Y-%m-%d` dates, and the
//! writing of a day number as a date, are done by `chrono`; each result is
//! named here and carried into the library as plain values.
use vstd::prelude::*;
use chrono::Datelike;
use chrono::Timelike;

verus! {

/// What `chrono::DateTime::parse_from_rfc3339` reads from `text`: the Unix
/// time in seconds, the hour and minute of the wall-clock time as written,
/// and the local date (`date_naive`) as chrono displays it; `None` when the
/// text is not an RFC 3339 timestamp.
pub uninterp spec fn rfc3339_reading(text: Seq<char>) -> Option<(i64, u32, u32, Seq<char>)>;

/// What `chrono::NaiveDate::parse_from_str(text, "%Y-%m-%d")` reads: the day
/// number counted from 1 January of year 1 (`num_days_from_ce`) and the
/// weekday counted from Monday (`weekday().num_days_from_monday()`).
pub uninterp spec fn date_reading(text: Seq<char>) -> Option<(i32, u32)>;

/// The date numbered `days` (as `num_days_from_ce` counts) written by chrono
/// as `%Y-%m-%d`; `None` outside the dates chrono represents.
pub uninterp spec fn day_number_text(days: i32) -> Option<Seq<char>>;

/// A timestamp read from its RFC 3339 text.
pub struct LocalTimestamp {
    pub unix_seconds: i64,
    pub hour: u32,
    pub minute: u32,
    pub local_date: String,
}

impl LocalTimestamp {
    pub open spec fn reading(self) -> (i64, u32, u32, Seq<char>) {
        (self.unix_seconds, self.hour, self.minute, self.local_date@)
    }
}

/// A calendar day read from its `%Y-%m-%d` text.
#[derive(Clone, Copy)]
pub struct CalendarDay {
    pub days_from_ce: i32,
    pub weekday_from_monday: u32,
}

/// Calls `chrono::DateTime::parse_from_rfc3339` and reads the Unix time, the
/// hour, the minute and the local date of the result. The contract claims
/// that the reading is the one named `rfc3339_reading`, and, as chrono's
/// `Timelike` documents, that the hour is below 24 and the minute below 60.
#[verifier::external_body]
pub(crate) fn parse_local_timestamp(value: &str) -> (r: Option<LocalTimestamp>)
    ensures
        r matches Some(t) ==> rfc3339_reading(value@) == Some(t.reading()),
        r is None ==> rfc3339_reading(value@) is None,
        r matches Some(t) ==> t.hour < 24 && t.minute < 60,
{
    match chrono::DateTime::parse_from_rfc3339(value) {
        Ok(t) => Some(
            LocalTimestamp {
                unix_seconds: t.timestamp(),
                hour: t.hour(),
                minute: t.minute(),
                local_date: t.date_naive().to_string(),
            },
        ),
        Err(_) => None,
    }
}

/// Calls `chrono::NaiveDate::parse_from_str(value, "%Y-%m-%d")` and reads
/// the day number and the weekday of the result. The contract claims that
/// the reading is the one named `date_reading`, and that the weekday, counted
/// from Monday, is below 7.
#[verifier::external_body]
pub(crate) fn parsed_date(value: &str) -> (r: Option<CalendarDay>)
    ensures
        r matches Some(d) ==> date_reading(value@) == Some((d.days_from_ce, d.weekday_from_monday)),
        r is None ==> date_reading(value@) is None,
        r matches Some(d) ==> d.weekday_from_monday < 7,
{
    match chrono::NaiveDate::parse_from_str(value, "%Y-%m-%d") {
        Ok(d) => Some(
            CalendarDay {
                days_from_ce: d.num_days_from_ce(),
                weekday_from_monday: d.weekday().num_days_from_monday(),
            },
        ),
        Err(_) => None,
    }
}

/// Calls `chrono::NaiveDate::from_num_days_from_ce_opt(days)` and writes the
/// date as `%Y-%m-%d`. The contract claims that the text is the one named
/// `day_number_text`.
#[verifier::external_body]
pub(crate) fn day_text(days: i32) -> (r: Option<String>)
    ensures
        r matches Some(t) ==> day_number_text(days) == Some(t@),
        r is None ==> day_number_text(days) is None,
{
    match chrono::NaiveDate::from_num_days_from_ce_opt(days) {
        Some(d) => Some(d.format("%Y-%m-%d").to_string()),
        None => None,
    }
}

/// The minute of the day (`hour * 60 + minute`) at which the timestamp
/// written as `text` falls, as chrono reads it.
pub open spec fn minute_of_day_of(text: Seq<char>) -> Option<int> {
    match rfc3339_reading(text) {
        Some(r) => Some(r.1 * 60 + r.2),
        None => None,
    }
}

/// The minute of the day of a timestamp text.
pub fn minute_of_text(text: &str) -> (r: Option<usize>)
    ensures
        r matches Some(m) ==> minute_of_day_of(text@) == Some(m as int) && m < 1440,
        r is None ==> minute_of_day_of(text@) is None,
{
    match parse_local_timestamp(text) {
        Some(t) => Some(t.hour as usize * 60 + t.minute as usize),
        None => None,
    }
}

} // verus!
