//! Calendar values from chrono, carried as plain numbers: a date is its
//! chrono day number (days from the common era, 0001-01-01 being day 1), a
//! naive date-time is `day * 86400 + seconds after midnight`.
use vstd::prelude::*;
use chrono::{Datelike, Timelike};

verus! {

/// The date format `YYYY-MM-DD`.
pub open spec fn ymd_format() -> Seq<char> {
    "%Y-%m-%d"@
}

/// The time format `HH:MM`.
pub open spec fn hm_format() -> Seq<char> {
    "%H:%M"@
}

/// Day number of `s` read with format `fmt`, if it reads as a date.
pub uninterp spec fn parsed_date(s: Seq<char>, fmt: Seq<char>) -> Option<i32>;

/// Text of day number `days` written with format `fmt`, if it is a date.
pub uninterp spec fn formatted_date(days: i32, fmt: Seq<char>) -> Option<Seq<char>>;

/// Text of day number `days` in chrono's `Display` form, if it is a date.
pub uninterp spec fn displayed_date(days: i32) -> Option<Seq<char>>;

/// Seconds after midnight of `s` read with format `fmt`, if it reads as a time.
pub uninterp spec fn parsed_time(s: Seq<char>, fmt: Seq<char>) -> Option<u32>;

/// An RFC 3339 timestamp seen in UTC: its day number, its hour and its Unix
/// time in seconds, if `s` reads as one.
pub uninterp spec fn rfc3339_utc(s: Seq<char>) -> Option<(i32, u32, i64)>;

/// chrono `NaiveDate::parse_from_str`, the result given as its day number
/// (`num_days_from_ce`). The day number is a function of the text and the
/// format; a parsed date can be written back out.
#[verifier::external_body]
pub(crate) fn parse_date(s: &str, fmt: &str) -> (r: Option<i32>)
    requires
        fmt@ == ymd_format(),
    ensures
        r == parsed_date(s@, fmt@),
        r matches Some(d) ==> formatted_date(d, fmt@) is Some,
{
    match chrono::NaiveDate::parse_from_str(s, fmt) {
        Ok(d) => Some(d.num_days_from_ce()),
        Err(_) => None,
    }
}

/// chrono `NaiveDate::from_num_days_from_ce_opt` followed by `format(fmt)`;
/// `None` when the day number lies outside chrono's dates. Only the
/// `YYYY-MM-DD` format is admitted, on which writing cannot fail.
#[verifier::external_body]
pub(crate) fn format_date(days: i32, fmt: &str) -> (r: Option<String>)
    requires
        fmt@ == ymd_format(),
    ensures
        match r {
            Some(s) => formatted_date(days, fmt@) == Some(s@),
            None => formatted_date(days, fmt@) is None,
        },
{
    match chrono::NaiveDate::from_num_days_from_ce_opt(days) {
        Some(d) => Some(d.format(fmt).to_string()),
        None => None,
    }
}

/// chrono `NaiveDate::from_num_days_from_ce_opt` followed by `to_string`;
/// `None` when the day number lies outside chrono's dates.
#[verifier::external_body]
pub(crate) fn display_date(days: i32) -> (r: Option<String>)
    ensures
        match r {
            Some(s) => displayed_date(days) == Some(s@),
            None => displayed_date(days) is None,
        },
{
    match chrono::NaiveDate::from_num_days_from_ce_opt(days) {
        Some(d) => Some(d.to_string()),
        None => None,
    }
}

/// chrono `NaiveTime::parse_from_str`, the result given as seconds after
/// midnight (`num_seconds_from_midnight`, always below 86400).
#[verifier::external_body]
pub(crate) fn parse_time(s: &str, fmt: &str) -> (r: Option<u32>)
    requires
        fmt@ == hm_format(),
    ensures
        r == parsed_time(s@, fmt@),
        r matches Some(t) ==> t < 86400,
{
    match chrono::NaiveTime::parse_from_str(s, fmt) {
        Ok(t) => Some(t.num_seconds_from_midnight()),
        Err(_) => None,
    }
}

/// chrono `DateTime::parse_from_rfc3339`, converted to UTC: the UTC date's day
/// number, the UTC hour (below 24) and the Unix timestamp. The UTC date can be
/// written back out.
#[verifier::external_body]
pub(crate) fn parse_rfc3339_utc(s: &str) -> (r: Option<(i32, u32, i64)>)
    ensures
        r == rfc3339_utc(s@),
        r matches Some(t) ==> t.1 < 24 && formatted_date(t.0, ymd_format()) is Some,
{
    match chrono::DateTime::parse_from_rfc3339(s) {
        Ok(dt) => {
            let u = dt.with_timezone(&chrono::Utc);
            Some((u.date_naive().num_days_from_ce(), u.hour(), u.timestamp()))
        },
        Err(_) => None,
    }
}

} // verus!
