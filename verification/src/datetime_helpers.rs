//! Timestamps of price updates.
//!
//! A quote's timestamp is an RFC-3339 date-time with a fixed offset. The
//! freshness gate only ever compares the instants such timestamps denote, so
//! the library models a timestamp by its number of nanoseconds since the Unix
//! epoch; parsing the textual form is delegated to chrono. Timestamps whose
//! instant does not fit in an `i64` of nanoseconds are rejected at parse
//! time, so comparisons never overflow.

use vstd::prelude::*;

verus! {

/// An instant: nanoseconds since the Unix epoch, timezone already applied.
#[derive(Clone, Copy, Debug, PartialEq, Eq, Structural)]
pub struct Timestamp {
    pub nanos: i64,
}

/// The instant denoted by an RFC-3339 string, in nanoseconds since the Unix
/// epoch, or `None` when the string is not a valid RFC-3339 date-time or its
/// instant does not fit. The result depends on the characters alone.
pub uninterp spec fn rfc3339_nanos(s: Seq<char>) -> Option<i64>;

/// Relies on `chrono::DateTime::parse_from_rfc3339` composed with
/// `chrono::DateTime::timestamp_nanos_opt`: both are pure functions of the
/// input string, parsing every valid RFC-3339 date-time and yielding its
/// instant as nanoseconds since the Unix epoch when that fits in an `i64`.
#[verifier::external_body]
fn parse_rfc3339_nanos(s: &str) -> (r: Option<i64>)
    ensures
        r == rfc3339_nanos(s@),
{
    match chrono::DateTime::parse_from_rfc3339(s) {
        Ok(dt) => dt.timestamp_nanos_opt(),
        Err(_) => None,
    }
}

/// Parses an RFC-3339 date-time string into a [`Timestamp`], or `None` when
/// the string is malformed (a malformed timestamp rejects the one record that
/// carried it rather than aborting the stream).
pub fn get_datetime_from_string(input_string: &str) -> (r: Option<Timestamp>)
    ensures
        r matches Some(t) ==> rfc3339_nanos(input_string@) == Some(t.nanos),
        r is None <==> rfc3339_nanos(input_string@) is None,
{
    match parse_rfc3339_nanos(input_string) {
        Some(n) => Some(Timestamp { nanos: n }),
        None => None,
    }
}

/// Returns true exactly when `dt_candidate` denotes a strictly later instant
/// than `dt_existing`; equal instants are not more recent.
pub fn is_more_recent(dt_candidate: Timestamp, dt_existing: Timestamp) -> (r: bool)
    ensures
        r == (dt_candidate.nanos > dt_existing.nanos),
{
    dt_candidate.nanos > dt_existing.nanos
}

} // verus!
