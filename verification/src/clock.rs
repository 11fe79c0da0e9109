//! The wall clock, as seen through `chrono` and through the standard
//! library.

use std::time::Duration;
use std::time::SystemTime;
use vstd::prelude::*;

verus! {

/// Makes `std::time::SystemTime` known as an opaque type: a reading of the
/// system clock that is only carried from one call to the next.
#[verifier::external_type_specification]
#[verifier::external_body]
pub struct ExSystemTime(SystemTime);

/// Calls `std::time::SystemTime::now`. The reading depends on the clock, so
/// nothing is promised about it.
#[verifier::external_body]
fn system_now() -> (at: SystemTime) {
    SystemTime::now()
}

/// Calls `std::time::SystemTime::duration_since` with the Unix epoch as the
/// earlier instant. A reading before the epoch, for which the call reports
/// an error, becomes `None`. The duration is opaque here, so nothing is
/// promised about it.
#[verifier::external_body]
fn since_unix_epoch(at: &SystemTime) -> (elapsed: Option<Duration>) {
    match at.duration_since(std::time::UNIX_EPOCH) {
        Ok(elapsed) => Some(elapsed),
        Err(_) => None,
    }
}

/// Calls `std::time::Duration::as_secs`: the whole seconds of a duration.
/// The duration is opaque here, so nothing is promised about the number.
#[verifier::external_body]
fn whole_seconds(elapsed: &Duration) -> (seconds: u64) {
    elapsed.as_secs()
}

/// The whole seconds that the system clock stands after the Unix epoch, or
/// nothing when it stands before it.
pub(crate) fn system_seconds() -> (seconds: Option<u64>) {
    let at = system_now();
    match since_unix_epoch(&at) {
        Some(elapsed) => Some(whole_seconds(&elapsed)),
        None => None,
    }
}

/// Calls `chrono::Utc::now` and hands back the instant in three forms:
/// rendered with `DateTime::format("%Y-%m-%dT%H:%M:%SZ")`, as whole seconds
/// since the Unix epoch (`DateTime::timestamp`), and as nanoseconds within
/// the second (`DateTime::timestamp_subsec_nanos`). The instant depends on
/// the clock, so nothing is promised about it.
#[verifier::external_body]
fn utc_now() -> (now: (String, i64, u32)) {
    let now = chrono::Utc::now();
    (
        now.format("%Y-%m-%dT%H:%M:%SZ").to_string(),
        now.timestamp(),
        now.timestamp_subsec_nanos(),
    )
}

/// The current time as a stamp: year, month, day, `T`, hour, minute,
/// second, `Z`.
pub(crate) fn utc_timestamp() -> (text: String) {
    utc_now().0
}

/// The current time as whole seconds since the Unix epoch and nanoseconds
/// within the second.
pub(crate) fn utc_now_parts() -> (now: (i64, u32)) {
    let now = utc_now();
    (now.1, now.2)
}

/// The instant that an RFC 3339 date-and-time text denotes, as whole seconds
/// since the Unix epoch and nanoseconds within the second, or nothing when
/// `chrono` does not accept the text.
pub uninterp spec fn spec_parse_rfc3339(text: Seq<char>) -> Option<(i64, u32)>;

/// Calls `chrono::DateTime::parse_from_rfc3339` and takes the instant apart
/// with `timestamp` and `timestamp_subsec_nanos`; a parse error becomes
/// `None`. The contract only gives the result a name: it depends on the text
/// alone.
#[verifier::external_body]
pub(crate) fn parse_rfc3339(text: &str) -> (parsed: Option<(i64, u32)>)
    ensures
        parsed == spec_parse_rfc3339(text@),
{
    match chrono::DateTime::parse_from_rfc3339(text) {
        Ok(instant) => Some((instant.timestamp(), instant.timestamp_subsec_nanos())),
        Err(_) => None,
    }
}

} // verus!
