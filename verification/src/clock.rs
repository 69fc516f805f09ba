//! Timestamps. Actions carry their time as seconds since the Unix epoch;
//! rendering that value as an ISO-8601 / RFC 3339 string is delegated to an
//! outside calendar library.

use vstd::prelude::*;

verus! {

/// Latest timestamp this library renders as text: 9999-12-31T23:59:59 UTC.
pub const MAX_RENDERED_TIMESTAMP: u64 = 253_402_300_799;

/// The ISO-8601 / RFC 3339 rendering of a UTC timestamp. The rendering is a
/// function of the seconds value alone.
pub uninterp spec fn iso8601_of(secs: u64) -> Seq<char>;

/// Relies on chrono's `DateTime::<Utc>::from_timestamp`, which returns `Some`
/// for every non-negative second count up to year 9999 and beyond, and on
/// `DateTime::to_rfc3339`, whose result depends on the timestamp alone.
#[verifier::external_body]
pub(crate) fn rfc3339_of(secs: u64) -> (r: String)
    requires
        secs <= MAX_RENDERED_TIMESTAMP,
    ensures
        r@ == iso8601_of(secs),
{
    chrono::DateTime::<chrono::Utc>::from_timestamp(secs as i64, 0).unwrap().to_rfc3339()
}

/// Relies on chrono's `From<SystemTime>` conversion and `timestamp`: the
/// current wall-clock time as seconds since the Unix epoch, negative when
/// the system clock is set before it (the conversion handles that side
/// itself, where `Utc::now` would abort). Nothing is promised of the value.
/// chrono still aborts on a clock beyond its representable calendar, about
/// 262000 years from now on either side.
#[verifier::external_body]
pub(crate) fn now_unix_seconds() -> i64 {
    chrono::DateTime::<chrono::Utc>::from(std::time::SystemTime::now()).timestamp()
}

/// The current time as a timestamp an `Action` can carry: clamped into
/// `[0, MAX_RENDERED_TIMESTAMP]`.
pub fn now_clamped() -> (t: u64)
    ensures
        t <= MAX_RENDERED_TIMESTAMP,
{
    let raw = now_unix_seconds();
    if raw < 0 {
        0
    } else if raw as u64 > MAX_RENDERED_TIMESTAMP {
        MAX_RENDERED_TIMESTAMP
    } else {
        raw as u64
    }
}

} // verus!
