//! Points in time, and the age of a timestamp.
//!
//! Timestamps are read and subtracted by the `chrono` crate; this module
//! holds the calls and names what they give.

use vstd::prelude::*;

verus! {

/// A point in time: the whole seconds since 1970-01-01T00:00:00Z and the
/// nanoseconds past that second, as `chrono` counts both.
#[derive(Debug, Clone, Copy)]
pub struct Instant {
    pub seconds: i64,
    pub nanos: u32,
}

/// The point in time that `chrono` reads out of an RFC 3339 timestamp;
/// `None` for text that it does not accept as one.
pub uninterp spec fn rfc3339_instant(text: Seq<char>) -> Option<Instant>;

/// A length of time: whole seconds and the nanoseconds beyond them, as
/// `chrono` counts both. The two never differ in sign, and the length is
/// `seconds` × 1 000 000 000 + `nanos` nanoseconds.
#[derive(Debug, Clone, Copy, PartialEq, Eq, Structural)]
pub struct Elapsed {
    pub seconds: i64,
    pub nanos: i32,
}

/// The time that `chrono` counts from `earlier` to `later`, negative when
/// `later` is the earlier one; `None` when `chrono` cannot hold one of the
/// two points.
pub uninterp spec fn elapsed_between(later: Instant, earlier: Instant) -> Option<Elapsed>;

/// Calls `chrono::DateTime::parse_from_rfc3339` and hands the result on as
/// `timestamp()` and `timestamp_subsec_nanos()` report it. The contract
/// claims only that the result is a function of the text.
#[verifier::external_body]
fn parse_rfc3339(text: &str) -> (r: Option<Instant>)
    ensures
        r == rfc3339_instant(text@),
{
    match chrono::DateTime::parse_from_rfc3339(text) {
        Ok(t) => Some(Instant { seconds: t.timestamp(), nanos: t.timestamp_subsec_nanos() }),
        Err(_) => None,
    }
}

/// Calls `chrono::Utc::now`, which reads the system clock, and hands the
/// result on as `timestamp()` and `timestamp_subsec_nanos()` report it.
/// Nothing is claimed of the result. `chrono` panics when the system clock
/// stands before 1970.
#[verifier::external_body]
pub(crate) fn utc_now() -> (r: Instant) {
    let t = chrono::Utc::now();
    Instant { seconds: t.timestamp(), nanos: t.timestamp_subsec_nanos() }
}

/// Rebuilds both points with `chrono::DateTime::from_timestamp`, subtracts
/// them with `DateTime::signed_duration_since` and hands the difference on
/// as `TimeDelta::num_seconds` and `TimeDelta::subsec_nanos` report it. The
/// contract claims only that the result is a function of the two points; it
/// is `None` when `from_timestamp` refuses one.
#[verifier::external_body]
fn time_between(later: &Instant, earlier: &Instant) -> (r: Option<Elapsed>)
    ensures
        r == elapsed_between(*later, *earlier),
{
    let a = chrono::DateTime::from_timestamp(later.seconds, later.nanos)?;
    let b = chrono::DateTime::from_timestamp(earlier.seconds, earlier.nanos)?;
    let d = a.signed_duration_since(b);
    Some(Elapsed { seconds: d.num_seconds(), nanos: d.subsec_nanos() })
}

/// The age, at the time `now`, of the timestamp `date`; `None` when `date`
/// is no RFC 3339 timestamp.
pub open spec fn age_at(date: Seq<char>, now: Instant) -> Option<Elapsed> {
    match rfc3339_instant(date) {
        Some(then) => elapsed_between(now, then),
        None => None,
    }
}

/// The age, at the time `now`, of the timestamp `date`.
pub fn time_since(date: &str, now: &Instant) -> (r: Option<Elapsed>)
    ensures
        r == age_at(date@, *now),
{
    match parse_rfc3339(date) {
        Some(then) => time_between(now, &then),
        None => None,
    }
}

} // verus!
