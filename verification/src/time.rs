use vstd::prelude::*;
use vstd::string::*;

use crate::error::CpmlError;
use crate::text::{cat5, decimal_text};

verus! {

/// Seconds in a day.
pub const SECS_PER_DAY: i64 = 86400;

/// The earliest instant chrono's `NaiveDateTime` represents (-262143-01-01T00:00:00),
/// in seconds since 1970-01-01T00:00:00.
pub const EARLIEST_SECS: i64 = -8334601315200i64;

/// The last whole second chrono's `NaiveDateTime` represents (262142-12-31T23:59:59),
/// in seconds since 1970-01-01T00:00:00.
pub const LATEST_SECS: i64 = 8210266876799i64;

/// Format for a date-time with seconds, e.g. `2026-01-15T14:30:00`.
pub const FORMAT_SECONDS: &'static str = "%Y-%m-%dT%H:%M:%S";

/// Format for a date-time with seconds and a UTC offset, which is ignored.
pub const FORMAT_OFFSET: &'static str = "%Y-%m-%dT%H:%M:%S%z";

/// Format for a date-time with minutes, e.g. `2026-06-01T08:00`.
pub const FORMAT_MINUTES: &'static str = "%Y-%m-%dT%H:%M";

/// Format for a calendar date, e.g. `2026-03-12`.
pub const FORMAT_DATE: &'static str = "%Y-%m-%d";

/// A calendar date and time of day without time zone, as whole seconds
/// since 1970-01-01T00:00:00.
#[derive(Clone, Copy, Debug, PartialEq, Eq, Structural)]
pub struct DateTime {
    pub secs: i64,
}

/// A calendar date, as whole days since 1970-01-01.
#[derive(Clone, Copy, Debug, PartialEq, Eq, Structural)]
pub struct Date {
    pub days: i64,
}

/// The day on which an instant falls (floor division by a day).
pub open spec fn day_of_secs(secs: int) -> int {
    secs / 86400
}

/// Whole days from `from` to `to`, rounded toward zero, as chrono's
/// `(to - from).num_days()` counts them.
pub open spec fn whole_days_between(from: int, to: int) -> int {
    if to >= from {
        (to - from) / 86400
    } else {
        -((from - to) / 86400)
    }
}

impl DateTime {
    /// Whether chrono can represent this instant.
    pub open spec fn in_chrono_range(self) -> bool {
        EARLIEST_SECS <= self.secs <= LATEST_SECS
    }

    /// The calendar date of this instant.
    pub fn date(&self) -> (d: Date)
        ensures
            d.days == day_of_secs(self.secs as int),
    {
        let s = self.secs;
        if s >= 0 {
            Date { days: s / 86400 }
        } else {
            let m: i64 = -(s + 1);
            let q: i64 = m / 86400;
            proof {
                let r = m % 86400;
                assert(m == 86400 * q + r && 0 <= r < 86400) by (nonlinear_arith)
                    requires m >= 0, q == m / 86400, r == m % 86400;
                assert(s == 86400 * (-q - 1) + (86399 - r));
                vstd::arithmetic::div_mod::lemma_div_basics_2(86400);
                vstd::arithmetic::div_mod::lemma_fundamental_div_mod_converse(s as int, 86400, -q - 1, 86399 - r);
            }
            Date { days: -q - 1 }
        }
    }
}

/// Whole days from `from` to `to`, rounded toward zero (chrono's `num_days`).
pub fn days_between(from: DateTime, to: DateTime) -> (n: i64)
    ensures
        n == whole_days_between(from.secs as int, to.secs as int),
{
    let a = from.secs as i128;
    let b = to.secs as i128;
    if b >= a {
        let d: i128 = b - a;
        let q: i128 = d / 86400;
        assert(q <= i64::MAX) by (nonlinear_arith)
            requires d <= 0x1_0000_0000_0000_0000i128, q == d / 86400, d >= 0;
        q as i64
    } else {
        let d: i128 = a - b;
        let q: i128 = d / 86400;
        assert(q <= i64::MAX) by (nonlinear_arith)
            requires d <= 0x1_0000_0000_0000_0000i128, q == d / 86400, d >= 0;
        (-q) as i64
    }
}

/// What `chrono::NaiveDateTime::parse_from_str(text, format)` gives, as seconds
/// since 1970-01-01T00:00:00 when the text parses.
pub uninterp spec fn naive_datetime_parse(text: Seq<char>, format: Seq<char>) -> Option<i64>;

/// What `chrono::NaiveDate::parse_from_str(text, format)` gives: the midnight
/// that starts the parsed date, in seconds since 1970-01-01T00:00:00, or the
/// text of chrono's parse error.
pub uninterp spec fn naive_date_parse(text: Seq<char>, format: Seq<char>) -> Result<i64, Seq<char>>;

/// The text chrono's `Display` writes for the date-time `secs` seconds after
/// 1970-01-01T00:00:00 (e.g. `2026-01-05 00:00:00`), or `None` when chrono
/// cannot represent it.
pub uninterp spec fn naive_datetime_text(secs: i64) -> Option<Seq<char>>;

/// Calls `chrono::NaiveDateTime::parse_from_str`; the result is the
/// timestamp of the parsed date-time, named by `naive_datetime_parse`.
#[verifier::external_body]
fn chrono_parse_datetime(text: &str, format: &str) -> (r: Option<i64>)
    ensures
        r == naive_datetime_parse(text@, format@),
{
    match chrono::NaiveDateTime::parse_from_str(text, format) {
        Ok(dt) => Some(dt.and_utc().timestamp()),
        Err(_) => None,
    }
}

/// Calls `chrono::NaiveDate::parse_from_str`; the result is the timestamp of
/// the date's midnight or chrono's error text, named by `naive_date_parse`.
#[verifier::external_body]
fn chrono_parse_date(text: &str, format: &str) -> (r: Result<i64, String>)
    ensures
        match r {
            Ok(t) => naive_date_parse(text@, format@) == Ok::<i64, Seq<char>>(t),
            Err(e) => naive_date_parse(text@, format@) == Err::<i64, Seq<char>>(e@),
        },
{
    match chrono::NaiveDate::parse_from_str(text, format) {
        Ok(d) => Ok(d.and_time(chrono::NaiveTime::MIN).and_utc().timestamp()),
        Err(e) => Err(e.to_string()),
    }
}

/// Calls `chrono::DateTime::from_timestamp` and chrono's `Display` of the
/// naive date-time; the text is named by `naive_datetime_text`.
#[verifier::external_body]
fn chrono_datetime_text(secs: i64) -> (r: Option<String>)
    ensures
        match r {
            Some(s) => naive_datetime_text(secs) == Some(s@),
            None => naive_datetime_text(secs) is None,
        },
{
    match chrono::DateTime::from_timestamp(secs, 0) {
        Some(dt) => Some(dt.naive_utc().to_string()),
        None => None,
    }
}

/// The result of parsing a date-time text: the first of the formats with
/// seconds, with seconds and offset, with minutes that accepts it; else a
/// plain date at midnight; else chrono's error text for the plain date.
pub open spec fn spec_parse_datetime(text: Seq<char>) -> Result<i64, Seq<char>> {
    if naive_datetime_parse(text, FORMAT_SECONDS@) is Some {
        Ok(naive_datetime_parse(text, FORMAT_SECONDS@)->0)
    } else if naive_datetime_parse(text, FORMAT_OFFSET@) is Some {
        Ok(naive_datetime_parse(text, FORMAT_OFFSET@)->0)
    } else if naive_datetime_parse(text, FORMAT_MINUTES@) is Some {
        Ok(naive_datetime_parse(text, FORMAT_MINUTES@)->0)
    } else {
        naive_date_parse(text, FORMAT_DATE@)
    }
}

/// The message for a date-time text that no format accepts.
pub open spec fn datetime_error_message(text: Seq<char>, reason: Seq<char>) -> Seq<char> {
    "Invalid date/datetime '"@ + text + "': "@ + reason + ""@
}

/// The message for a date text that does not parse.
pub open spec fn date_error_message(text: Seq<char>, reason: Seq<char>) -> Seq<char> {
    "Invalid date '"@ + text + "': "@ + reason + ""@
}

/// Parse an ISO 8601 date-time: full date-time with seconds, with seconds
/// and an offset (ignored), with minutes, or a date alone (midnight).
pub fn parse_datetime(text: &str) -> (r: Result<DateTime, CpmlError>)
    ensures
        match spec_parse_datetime(text@) {
            Ok(t) => r == Ok::<DateTime, CpmlError>(DateTime { secs: t }),
            Err(reason) => r matches Err(CpmlError::DateParseError(m))
                && m@ == datetime_error_message(text@, reason),
        },
{
    if let Some(t) = chrono_parse_datetime(text, FORMAT_SECONDS) {
        return Ok(DateTime { secs: t });
    }
    if let Some(t) = chrono_parse_datetime(text, FORMAT_OFFSET) {
        return Ok(DateTime { secs: t });
    }
    if let Some(t) = chrono_parse_datetime(text, FORMAT_MINUTES) {
        return Ok(DateTime { secs: t });
    }
    match chrono_parse_date(text, FORMAT_DATE) {
        Ok(t) => Ok(DateTime { secs: t }),
        Err(reason) => Err(
            CpmlError::DateParseError(cat5("Invalid date/datetime '", text, "': ", reason.as_str(), "")),
        ),
    }
}

/// Parse an ISO 8601 calendar date (`%Y-%m-%d`).
pub fn parse_date(text: &str) -> (r: Result<Date, CpmlError>)
    ensures
        match naive_date_parse(text@, FORMAT_DATE@) {
            Ok(t) => r == Ok::<Date, CpmlError>(Date { days: day_of_secs(t as int) as i64 }),
            Err(reason) => r matches Err(CpmlError::DateParseError(m))
                && m@ == date_error_message(text@, reason),
        },
{
    match chrono_parse_date(text, FORMAT_DATE) {
        Ok(t) => Ok(DateTime { secs: t }.date()),
        Err(reason) => Err(CpmlError::DateParseError(cat5("Invalid date '", text, "': ", reason.as_str(), ""))),
    }
}

/// The display text of a date-time: chrono's text when chrono represents it,
/// otherwise the decimal seconds.
pub open spec fn datetime_text(dt: DateTime) -> Seq<char> {
    match naive_datetime_text(dt.secs) {
        Some(s) => s,
        None => crate::text::decimal(dt.secs as int),
    }
}

/// Display a date-time as chrono does (`2026-01-05 00:00:00`).
pub fn display_datetime(dt: DateTime) -> (s: String)
    ensures
        s@ == datetime_text(dt),
{
    match chrono_datetime_text(dt.secs) {
        Some(s) => s,
        None => decimal_text(dt.secs),
    }
}

/// Format for a keyframe date at midnight, e.g. `2026-01-05`.
pub const FORMAT_DAY: &'static str = "%Y-%m-%d";

/// Format for a keyframe date at another time of day, e.g. `2026-01-05T08:30`.
pub const FORMAT_DAY_MINUTES: &'static str = "%Y-%m-%dT%H:%M";

/// The text chrono's `format` writes for the date-time `secs` seconds after
/// 1970-01-01T00:00:00 with the given format, or `None` when chrono cannot
/// represent it.
pub uninterp spec fn naive_datetime_format(secs: i64, format: Seq<char>) -> Option<Seq<char>>;

/// Calls `chrono::DateTime::from_timestamp` and formats the naive date-time
/// with chrono's `format`; the text is named by `naive_datetime_format`.
#[verifier::external_body]
fn chrono_format(secs: i64, format: &str) -> (r: Option<String>)
    requires
        format@ == FORMAT_DAY@ || format@ == FORMAT_DAY_MINUTES@,
    ensures
        match r {
            Some(s) => naive_datetime_format(secs, format@) == Some(s@),
            None => naive_datetime_format(secs, format@) is None,
        },
{
    match chrono::DateTime::from_timestamp(secs, 0) {
        Some(dt) => Some(dt.naive_utc().format(format).to_string()),
        None => None,
    }
}

/// Whether an instant falls at midnight.
pub open spec fn at_midnight(dt: DateTime) -> bool {
    dt.secs % 86400 == 0
}

/// The text of a keyframe date: the date alone at midnight, else the date
/// with hours and minutes; the decimal seconds where chrono has no date.
pub open spec fn keyframe_date_text(dt: DateTime) -> Seq<char> {
    let format = if at_midnight(dt) { FORMAT_DAY@ } else { FORMAT_DAY_MINUTES@ };
    match naive_datetime_format(dt.secs, format) {
        Some(s) => s,
        None => crate::text::decimal(dt.secs as int),
    }
}

/// Format a keyframe date for reports: `2026-01-05` at midnight, otherwise
/// `2026-01-05T08:30`.
pub fn format_keyframe_date(dt: DateTime) -> (s: String)
    ensures
        s@ == keyframe_date_text(dt),
{
    let format = if dt.secs % 86400 == 0 { FORMAT_DAY } else { FORMAT_DAY_MINUTES };
    match chrono_format(dt.secs, format) {
        Some(s) => s,
        None => decimal_text(dt.secs),
    }
}

/// Counting whole days forward from `from` to `to` gives a number of days
/// that fits in the span without a full day left over, and counting backward
/// gives its negation.
pub proof fn lemma_whole_days_between(from: int, to: int)
    ensures
        whole_days_between(from, to) == -whole_days_between(to, from),
        to >= from ==> 0 <= whole_days_between(from, to) && whole_days_between(from, to) * 86400 <= to - from
            < whole_days_between(from, to) * 86400 + 86400,
{
    if to >= from {
        let d = to - from;
        let q = d / 86400;
        assert(0 <= q && q * 86400 <= d < q * 86400 + 86400) by (nonlinear_arith)
            requires d >= 0, q == d / 86400;
    }
}

/// The day of an instant is the day whose 86400 seconds hold it.
pub proof fn lemma_day_of_secs(secs: int)
    ensures
        day_of_secs(secs) * 86400 <= secs < day_of_secs(secs) * 86400 + 86400,
{
    let q = secs / 86400;
    assert(q * 86400 <= secs < q * 86400 + 86400) by (nonlinear_arith)
        requires q == secs / 86400;
}

} // verus!
