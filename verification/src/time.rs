//! Instants in UTC, read from and written as text with chrono.
use vstd::prelude::*;
use std::fmt::Write;

verus! {

/// An instant in UTC: whole seconds since the Unix epoch and the nanoseconds
/// past that second, as chrono's `DateTime<Utc>` holds them.
#[derive(Debug, Clone, Copy, PartialEq, Eq)]
pub struct Timestamp {
    pub secs: i64,
    pub nanos: u32,
}

/// The instant that chrono reads from RFC 3339 text, converted to UTC.
pub uninterp spec fn rfc3339_instant(text: Seq<char>) -> Option<Timestamp>;

/// The instant that chrono reads from `text` as a date and time without zone
/// in the strftime `format`, taken as UTC.
pub uninterp spec fn naive_datetime_instant(text: Seq<char>, format: Seq<char>) -> Option<
    Timestamp,
>;

/// The time `hour:min:sec` UTC of the date that chrono reads from `text` in
/// the strftime `format`; `None` when the text does not parse or chrono has
/// no such time of day.
pub uninterp spec fn naive_date_at(
    text: Seq<char>,
    format: Seq<char>,
    hour: u32,
    min: u32,
    sec: u32,
) -> Option<Timestamp>;

/// The instant written by chrono with the strftime `format`; `None` when
/// chrono has no `DateTime<Utc>` for it or cannot write the format.
pub uninterp spec fn utc_formatted(t: Timestamp, format: Seq<char>) -> Option<Seq<char>>;

/// How many digits of the second chrono writes in RFC 3339 text
/// (`chrono::SecondsFormat`).
#[derive(Debug, Clone, Copy, PartialEq, Eq)]
pub enum SecondDigits {
    Secs,
    Millis,
    Micros,
    Nanos,
    AutoSi,
}

/// The instant written by chrono as RFC 3339 with `digits` of the second,
/// and `Z` for the zone when `use_z`; `None` when chrono has no
/// `DateTime<Utc>` for it.
pub uninterp spec fn rfc3339_written(t: Timestamp, digits: SecondDigits, use_z: bool) -> Option<
    Seq<char>,
>;

/// `DateTime::parse_from_rfc3339`, the result taken to UTC (`with_timezone(&Utc)`).
#[verifier::external_body]
pub(crate) fn parse_rfc3339(text: &str) -> (t: Option<Timestamp>)
    ensures
        t == rfc3339_instant(text@),
{
    match chrono::DateTime::parse_from_rfc3339(text) {
        Ok(d) => {
            let u = d.with_timezone(&chrono::Utc);
            Some(Timestamp { secs: u.timestamp(), nanos: u.timestamp_subsec_nanos() })
        },
        Err(_) => None,
    }
}

/// `NaiveDateTime::parse_from_str`, the result taken as UTC (`and_utc`).
#[verifier::external_body]
pub(crate) fn parse_naive_datetime(text: &str, format: &str) -> (t: Option<Timestamp>)
    ensures
        t == naive_datetime_instant(text@, format@),
{
    match chrono::NaiveDateTime::parse_from_str(text, format) {
        Ok(n) => {
            let u = n.and_utc();
            Some(Timestamp { secs: u.timestamp(), nanos: u.timestamp_subsec_nanos() })
        },
        Err(_) => None,
    }
}

/// `NaiveDate::parse_from_str`, then `and_hms_opt(hour, min, sec)` of the
/// date, taken as UTC.
#[verifier::external_body]
pub(crate) fn parse_naive_date_at(text: &str, format: &str, hour: u32, min: u32, sec: u32) -> (t:
    Option<Timestamp>)
    ensures
        t == naive_date_at(text@, format@, hour, min, sec),
{
    match chrono::NaiveDate::parse_from_str(text, format) {
        Ok(d) => match d.and_hms_opt(hour, min, sec) {
            Some(n) => {
                let u = n.and_utc();
                Some(Timestamp { secs: u.timestamp(), nanos: u.timestamp_subsec_nanos() })
            },
            None => None,
        },
        Err(_) => None,
    }
}

/// `DateTime::<Utc>::from_timestamp` written with `DateTime::format`.
#[verifier::external_body]
pub(crate) fn format_utc(t: Timestamp, format: &str) -> (s: Option<String>)
    ensures
        s matches Some(text) ==> utc_formatted(t, format@) == Some(text@),
        s is None ==> utc_formatted(t, format@) is None,
{
    match chrono::DateTime::from_timestamp(t.secs, t.nanos) {
        Some(d) => {
            let mut text = String::new();
            match write!(text, "{}", d.format(format)) {
                Ok(()) => Some(text),
                Err(_) => None,
            }
        },
        None => None,
    }
}

/// `DateTime::<Utc>::from_timestamp` written with `to_rfc3339_opts`, the
/// digits given as the matching `SecondsFormat`.
#[verifier::external_body]
pub(crate) fn format_rfc3339(t: Timestamp, digits: SecondDigits, use_z: bool) -> (s: Option<
    String,
>)
    ensures
        s matches Some(text) ==> rfc3339_written(t, digits, use_z) == Some(text@),
        s is None ==> rfc3339_written(t, digits, use_z) is None,
{
    let format = match digits {
        SecondDigits::Secs => chrono::SecondsFormat::Secs,
        SecondDigits::Millis => chrono::SecondsFormat::Millis,
        SecondDigits::Micros => chrono::SecondsFormat::Micros,
        SecondDigits::Nanos => chrono::SecondsFormat::Nanos,
        SecondDigits::AutoSi => chrono::SecondsFormat::AutoSi,
    };
    match chrono::DateTime::from_timestamp(t.secs, t.nanos) {
        Some(d) => Some(d.to_rfc3339_opts(format, use_z)),
        None => None,
    }
}

/// The written form of an optional text: the text, or nothing.
pub open spec fn or_empty(s: Option<Seq<char>>) -> Seq<char> {
    match s {
        Some(t) => t,
        None => seq![],
    }
}

/// The strftime pattern of RFC 822 dates in GMT, as RSS uses them.
pub const RFC822_PATTERN: &'static str = "%a, %d %b %Y %H:%M:%S GMT";

/// The RFC 822 form of `t` (empty for an instant chrono cannot represent).
pub fn rfc822_date(t: Timestamp) -> (s: String)
    ensures
        s@ == or_empty(utc_formatted(t, RFC822_PATTERN@)),
{
    match format_utc(t, RFC822_PATTERN) {
        Some(s) => s,
        None => String::new(),
    }
}

/// The strftime pattern of the dates shown on pages: day, month, year.
pub const DATE_PATTERN: &'static str = "%d-%m-%Y";

/// The date of `t` as pages show it, `dd-mm-yyyy` (empty for an instant
/// chrono cannot represent).
pub fn display_date(t: Timestamp) -> (s: String)
    ensures
        s@ == or_empty(utc_formatted(t, DATE_PATTERN@)),
{
    match format_utc(t, DATE_PATTERN) {
        Some(s) => s,
        None => String::new(),
    }
}

/// `t` written as RFC 3339 with whole seconds and `Z`.
pub open spec fn rfc3339_seconds(t: Timestamp) -> Option<Seq<char>> {
    rfc3339_written(t, SecondDigits::Secs, true)
}

/// The RFC 3339 form of `t` with whole seconds and `Z` (empty for an instant
/// chrono cannot represent).
pub fn rfc3339_secs(t: Timestamp) -> (s: String)
    ensures
        s@ == or_empty(rfc3339_seconds(t)),
{
    match format_rfc3339(t, SecondDigits::Secs, true) {
        Some(s) => s,
        None => String::new(),
    }
}

} // verus!
