//! Access to wall-clock time and timestamp parsing, through chrono.
//!
//! All date-and-time work of the library goes through the two functions here;
//! everything downstream computes on plain millisecond values.

use vstd::prelude::*;

verus! {

/// Whether a character sequence is a valid RFC 3339 date-and-time string, as
/// chrono's parser accepts it.
pub uninterp spec fn rfc3339_parses(s: Seq<char>) -> bool;

/// The instant named by a valid RFC 3339 date-and-time string, in
/// milliseconds since the Unix epoch.
pub uninterp spec fn rfc3339_ms_of(s: Seq<char>) -> int;

/// Chrono dates span roughly the years -262144..=262142, so every instant it
/// can represent lies strictly within this many milliseconds of the epoch.
pub const MS_BOUND: i64 = 9_000_000_000_000_000;

/// Relies on `chrono::DateTime::parse_from_rfc3339`, which accepts exactly
/// the valid RFC 3339 date-and-time strings and returns the parsed instant,
/// and on `chrono::DateTime::timestamp_millis`, the instant in milliseconds
/// since the Unix epoch. The result is a function of the string alone, and
/// chrono's bounded date range keeps it strictly within `MS_BOUND`.
#[verifier::external_body]
pub(crate) fn parse_rfc3339_ms(s: &str) -> (r: Option<i64>)
    ensures
        r is Some <==> rfc3339_parses(s@),
        r is Some ==> r->0 == rfc3339_ms_of(s@) && -MS_BOUND < r->0 < MS_BOUND,
{
    match chrono::DateTime::parse_from_rfc3339(s) {
        Ok(t) => Some(t.timestamp_millis()),
        Err(_) => None,
    }
}

/// One observation of the local wall clock.
pub struct ClockReading {
    /// Milliseconds since the Unix epoch.
    pub ms: i64,
    /// Calendar month in the local time zone, 1 to 12.
    pub month: u32,
    /// Day of the month in the local time zone, 1 to 31.
    pub day: u32,
    /// Local time of day formatted `HH:MM:SS`.
    pub hms: String,
}

/// What is known of every clock reading, whatever instant it was taken at.
pub open spec fn clock_wf(c: ClockReading) -> bool {
    &&& -MS_BOUND < c.ms < MS_BOUND
    &&& 1 <= c.month <= 12
    &&& 1 <= c.day <= 31
    &&& c.hms@.len() == 8
}

/// Relies on `chrono::Local::now` for the current instant, on the `Datelike`
/// accessors `month` and `day` (1-based calendar values), and on formatting
/// with `"%H:%M:%S"`, which prints three zero-padded two-digit fields. The
/// reading depends on the wall clock and the machine's time zone, so nothing
/// connects it to previous readings; chrono's bounded date range keeps the
/// millisecond value strictly within `MS_BOUND`.
#[verifier::external_body]
pub fn read_local_clock() -> (r: ClockReading)
    ensures
        clock_wf(r),
{
    let now = chrono::Local::now();
    ClockReading {
        ms: now.timestamp_millis(),
        month: chrono::Datelike::month(&now),
        day: chrono::Datelike::day(&now),
        hms: now.format("%H:%M:%S").to_string(),
    }
}

} // verus!
