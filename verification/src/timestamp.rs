//! Points in time, as the article header and the clock give them.

use vstd::prelude::*;
use chrono::TimeZone;

verus! {

/// A point in time: whole seconds since the Unix epoch (UTC) and the
/// nanoseconds past that second.
#[derive(Clone, Copy, Debug, PartialEq, Eq, Structural, PartialOrd, Ord, Hash)]
pub struct Timestamp {
    pub secs: i64,
    pub nanos: u32,
}

/// What `chrono`'s `Utc.datetime_from_str(s, fmt)` gives: the seconds and
/// nanoseconds of the parsed instant, or `None` where it reports an error.
pub uninterp spec fn utc_datetime_from_str(s: Seq<char>, fmt: Seq<char>) -> Option<(i64, u32)>;

/// Calls `chrono::TimeZone::datetime_from_str` on `chrono::Utc` and reads
/// the result back with `DateTime::timestamp` and
/// `DateTime::timestamp_subsec_nanos`. The contract claims only that the
/// result is the named value `utc_datetime_from_str(s, fmt)`; nothing is
/// said of which strings chrono accepts or of the instant it computes.
#[verifier::external_body]
#[allow(deprecated)]
pub(crate) fn parse_utc_datetime(s: &str, fmt: &str) -> (r: Option<Timestamp>)
    ensures
        match r {
            Some(t) => utc_datetime_from_str(s@, fmt@) == Some((t.secs, t.nanos)),
            None => utc_datetime_from_str(s@, fmt@) is None,
        },
{
    match chrono::Utc.datetime_from_str(s, fmt) {
        Ok(d) => Some(Timestamp { secs: d.timestamp(), nanos: d.timestamp_subsec_nanos() }),
        Err(_) => None,
    }
}

/// Calls `chrono::Utc::now()`. The clock decides the value; the contract
/// claims only that the nanoseconds stay below one second, which holds as
/// `Utc::now` builds its value from `Duration::subsec_nanos`. `Utc::now`
/// panics where the system clock reads a time before 1970; no argument can
/// rule that out.
#[verifier::external_body]
pub(crate) fn current_time() -> (r: Timestamp)
    ensures
        r.nanos < 1_000_000_000,
{
    let d = chrono::Utc::now();
    Timestamp { secs: d.timestamp(), nanos: d.timestamp_subsec_nanos() }
}

} // verus!
