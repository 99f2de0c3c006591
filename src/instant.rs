//! Instants are whole seconds since the Unix epoch, in UTC.
//!
//! The text forms of instants are read and written by chrono; what chrono
//! returns is named here and carried through the rest of the library.
use vstd::prelude::*;

verus! {

/// The earliest instant the library handles: 0001-01-01T00:00:00Z.
pub const MIN_INSTANT: i64 = -62135596800;

/// The latest instant the library handles: 9999-12-31T23:59:59Z.
pub const MAX_INSTANT: i64 = 253402300799;

/// Seconds in one hour.
pub const SECS_PER_HOUR: i64 = 3600;

/// Seconds in one day.
pub const SECS_PER_DAY: i64 = 86400;

/// Text form of an instant with minute precision, as used in fetch intervals
/// and reporting periods (`2022-06-30T21:00Z`).
pub const MINUTE_FORMAT: &'static str = "%Y-%m-%dT%H:%MZ";

/// Text form of a document's creation time (`2022-08-31T16:03:26Z`).
pub const SECOND_FORMAT: &'static str = "%Y-%m-%dT%H:%M:%SZ";

/// Text form of the bounds of a tax window (`2023-04-30T21:00:00`).
pub const LOCAL_SECOND_FORMAT: &'static str = "%Y-%m-%dT%H:%M:%S";

/// An instant within the years 1 to 9999.
pub open spec fn valid_instant(t: int) -> bool {
    MIN_INSTANT <= t <= MAX_INSTANT
}

/// The instant that chrono reads from `s` under the format `fmt`, as seconds
/// since the epoch, or `None` where chrono rejects the text.
pub uninterp spec fn parsed_utc_seconds(s: Seq<char>, fmt: Seq<char>) -> Option<i64>;

/// The text that chrono writes for the instant `secs` under the format `fmt`.
pub uninterp spec fn formatted_utc(secs: i64, fmt: Seq<char>) -> Seq<char>;

/// Relies on chrono's `NaiveDateTime::parse_from_str`, read as a UTC time:
/// the result depends on the text and the format alone.
#[verifier::external_body]
fn parse_utc(s: &str, fmt: &str) -> (r: Option<i64>)
    ensures
        r == parsed_utc_seconds(s@, fmt@),
{
    match chrono::NaiveDateTime::parse_from_str(s, fmt) {
        Ok(t) => Some(t.and_utc().timestamp()),
        Err(_) => None,
    }
}

/// Relies on chrono's `DateTime::from_timestamp` and `DateTime::format`: every
/// instant of the years 1 to 9999 is within chrono's range, and the minute
/// format is a valid chrono format.
#[verifier::external_body]
fn format_utc(secs: i64, fmt: &str) -> (r: String)
    requires
        valid_instant(secs as int),
        fmt@ == MINUTE_FORMAT@,
    ensures
        r@ == formatted_utc(secs, fmt@),
{
    chrono::DateTime::from_timestamp(secs, 0).unwrap().format(fmt).to_string()
}

/// The instant read from `s` under `fmt`, where chrono accepts it and it lies
/// within the years 1 to 9999.
pub open spec fn instant_from_text(s: Seq<char>, fmt: Seq<char>) -> Option<i64> {
    match parsed_utc_seconds(s, fmt) {
        Some(t) => if valid_instant(t as int) {
            Some(t)
        } else {
            None
        },
        None => None,
    }
}

/// Reads an instant from its text form.
pub fn parse_instant(s: &str, fmt: &str) -> (r: Option<i64>)
    ensures
        r == instant_from_text(s@, fmt@),
        r matches Some(t) ==> valid_instant(t as int),
{
    match parse_utc(s, fmt) {
        Some(t) => if MIN_INSTANT <= t && t <= MAX_INSTANT {
            Some(t)
        } else {
            None
        },
        None => None,
    }
}

/// The start of the hour that holds `t`.
pub open spec fn hour_floor(t: int) -> int {
    t - t % (SECS_PER_HOUR as int)
}

/// Writes an instant with minute precision (`2022-06-30T21:00Z`).
pub fn format_minute(t: i64) -> (r: String)
    requires
        valid_instant(t as int),
    ensures
        r@ == formatted_utc(t, MINUTE_FORMAT@),
{
    format_utc(t, MINUTE_FORMAT)
}

/// Writes an interval as two instants with minute precision joined by `/`
/// (`2022-06-30T21:00Z/2022-07-31T21:00Z`), the form the document source takes.
pub fn interval_text(start: i64, end: i64) -> (r: String)
    requires
        valid_instant(start as int),
        valid_instant(end as int),
    ensures
        r@ == formatted_utc(start, MINUTE_FORMAT@) + seq!['/'] + formatted_utc(
            end,
            MINUTE_FORMAT@,
        ),
{
    let mut r = format_minute(start);
    r.append("/");
    let e = format_minute(end);
    r.append(e.as_str());
    proof {
        reveal_strlit("/");
    }
    r
}

} // verus!
