//! Turning a server's midpoint into seconds and nanoseconds, and into text.
use chrono::TimeZone;
use std::fmt::Write;
use vstd::prelude::*;

verus! {

/// Microseconds in a second.
pub const MICROS_PER_SECOND: u64 = 1_000_000;

/// Nanoseconds in a microsecond.
pub const NANOS_PER_MICRO: u64 = 1_000;

/// Splits a midpoint in microseconds into whole seconds and the nanoseconds
/// past them.
pub fn split_midpoint(midpoint: u64) -> (r: (u64, u32))
    ensures
        r.0 == midpoint / 1_000_000,
        r.1 == (midpoint % 1_000_000) * 1_000,
        r.0 * 1_000_000 + r.1 / 1_000 == midpoint,
        r.1 < 1_000_000_000,
{
    let seconds = midpoint / MICROS_PER_SECOND;
    let nsecs = (midpoint - seconds * MICROS_PER_SECOND) * NANOS_PER_MICRO;
    (seconds, nsecs as u32)
}

/// The text that `chrono` gives for the UTC time `secs` seconds and `nanos`
/// nanoseconds after the epoch, written with the strftime format `format`;
/// `None` when the time is out of range or the format is invalid.
pub uninterp spec fn utc_time_text(secs: i64, nanos: u32, format: Seq<char>) -> Option<Seq<char>>;

/// The view of an optional string.
pub open spec fn option_text(s: Option<String>) -> Option<Seq<char>> {
    match s {
        Some(t) => Some(t@),
        None => None,
    }
}

/// Calls `chrono::TimeZone::timestamp_opt` on `chrono::Utc` and writes the
/// single result with `DateTime::format`. Claimed: the text is a function of
/// the arguments alone, named `utc_time_text`; `None` stands for an out-of-range
/// time or a format that `chrono` cannot write.
#[verifier::external_body]
fn format_utc(secs: i64, nanos: u32, format: &str) -> (r: Option<String>)
    ensures
        option_text(r) == utc_time_text(secs, nanos, format@),
{
    let t = chrono::Utc.timestamp_opt(secs, nanos).single()?;
    let mut s = String::new();
    write!(s, "{}", t.format(format)).ok()?;
    Some(s)
}

/// Calls `chrono::TimeZone::timestamp_opt` on `chrono::Local` and writes the
/// single result with `DateTime::format`. The text depends on the machine's
/// time zone, so nothing is claimed of it.
#[verifier::external_body]
fn format_local(secs: i64, nanos: u32, format: &str) -> (r: Option<String>) {
    let t = chrono::Local.timestamp_opt(secs, nanos).single()?;
    let mut s = String::new();
    write!(s, "{}", t.format(format)).ok()?;
    Some(s)
}

/// The midpoint written with the strftime format `time_format`, in UTC or in
/// the machine's time zone; `None` when `chrono` cannot write it.
pub fn format_midpoint(midpoint: u64, use_utc: bool, time_format: &str) -> (r: Option<String>)
    ensures
        use_utc ==> option_text(r) == utc_time_text(
            (midpoint / 1_000_000) as i64,
            ((midpoint % 1_000_000) * 1_000) as u32,
            time_format@,
        ),
{
    let (seconds, nsecs) = split_midpoint(midpoint);
    if use_utc {
        format_utc(seconds as i64, nsecs, time_format)
    } else {
        format_local(seconds as i64, nsecs, time_format)
    }
}

} // verus!
