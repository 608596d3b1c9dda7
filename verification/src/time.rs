//! Trusted boundary to the system clock and calendar: RFC 3339 parsing and
//! rendering, the current time, and end-of-day computation for event dates.

use vstd::prelude::*;

verus! {

/// Ceiling on TTL lengths, in seconds (roughly 317 years). Keeps timestamp
/// arithmetic far away from the calendar library's own bounds.
pub const MAX_TTL_SECONDS: i64 = 10_000_000_000;

/// The timestamp (seconds since the Unix epoch) that a text denotes under
/// RFC 3339, if it parses as one; `None` when it does not parse.
pub uninterp spec fn rfc3339_epoch_of(s: Seq<char>) -> Option<int>;

/// Relies on `chrono::DateTime::parse_from_rfc3339` and
/// `DateTime::timestamp`: whether a text parses, and the timestamp it
/// denotes, depend on the text alone.
#[verifier::external_body]
pub fn parse_rfc3339_epoch(s: &str) -> (r: Option<i64>)
    ensures
        match r {
            Some(t) => rfc3339_epoch_of(s@) == Some(t as int),
            None => rfc3339_epoch_of(s@) is None,
        },
{
    chrono::DateTime::parse_from_rfc3339(s).ok().map(|d| d.timestamp())
}

/// Relies on `chrono::Utc::now` and `DateTime::timestamp`: the current time
/// as seconds since the Unix epoch. Nothing can be promised of the clock.
#[verifier::external_body]
pub fn now_epoch_seconds() -> i64 {
    chrono::Utc::now().timestamp()
}

/// Relies on `chrono::Utc::now`, `DateTime::checked_add_signed` and
/// `DateTime::to_rfc3339`: the rendered text of a moment this far in the
/// future always parses back under RFC 3339.
#[verifier::external_body]
pub fn rfc3339_seconds_from_now(secs: i64) -> (r: String)
    requires
        0 <= secs <= MAX_TTL_SECONDS,
    ensures
        rfc3339_epoch_of(r@) is Some,
{
    let now = chrono::Utc::now();
    let t = now.checked_add_signed(chrono::TimeDelta::seconds(secs)).unwrap_or(now);
    t.to_rfc3339()
}

/// A year divisible by 4 but not by 100, or divisible by 400.
pub open spec fn spec_is_leap_year(y: int) -> bool {
    (y % 4 == 0 && y % 100 != 0) || y % 400 == 0
}

/// Days in a month of the proleptic Gregorian calendar.
pub open spec fn spec_days_in_month(y: int, m: int) -> int {
    if m == 2 {
        if spec_is_leap_year(y) {
            29
        } else {
            28
        }
    } else if m == 4 || m == 6 || m == 9 || m == 11 {
        30
    } else {
        31
    }
}

/// A calendar date within the four-digit-year range.
pub open spec fn spec_valid_ymd(y: int, m: int, d: int) -> bool {
    0 <= y <= 9999 && 1 <= m <= 12 && 1 <= d <= spec_days_in_month(y, m)
}

/// The RFC 3339 text for 23:59:59 UTC on a calendar day.
pub uninterp spec fn end_of_day_utc_of(y: int, m: int, d: int) -> Seq<char>;

/// Relies on `chrono::NaiveDate::from_ymd_opt` (which accepts exactly the
/// valid calendar dates), `NaiveDate::and_hms_opt`, `NaiveDateTime::and_utc`
/// and `DateTime::to_rfc3339`: the rendered end of a valid day is a function
/// of the date alone and parses back under RFC 3339.
#[verifier::external_body]
pub fn end_of_day_rfc3339(y: i32, m: u32, d: u32) -> (r: Option<String>)
    requires
        0 <= y <= 9999,
    ensures
        r is Some <==> spec_valid_ymd(y as int, m as int, d as int),
        r matches Some(s) ==> s@ == end_of_day_utc_of(y as int, m as int, d as int)
            && rfc3339_epoch_of(s@) is Some,
{
    let day = chrono::NaiveDate::from_ymd_opt(y, m, d)?;
    let end = day.and_hms_opt(23, 59, 59)?;
    Some(end.and_utc().to_rfc3339())
}

/// Relies on `chrono::Local::now` and its formatter: today's date in local
/// time, as `YYYY-MM-DD (Weekday)`, for prompt context. Depends on the
/// clock and time zone, so nothing is promised of it.
#[verifier::external_body]
pub fn local_today_formatted() -> String {
    chrono::Local::now().format("%Y-%m-%d (%A)").to_string()
}

} // verus!
