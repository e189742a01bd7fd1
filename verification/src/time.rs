//! The clock, and the age comparison that decides staleness.

use vstd::prelude::*;

verus! {

/// Whether the moment `unix_millis` lies more than `n_seconds` before
/// `now_seconds`; at exactly `n_seconds` of age it does not.
pub open spec fn spec_is_older(unix_millis: u64, n_seconds: u64, now_seconds: u64) -> bool {
    now_seconds - unix_millis / 1000 > n_seconds
}

/// Milliseconds since the UNIX epoch, read from the wall clock.
///
/// Relies on std::time::SystemTime::now and duration_since(UNIX_EPOCH):
/// nothing is assumed of the value; a clock before the epoch reads as 0.
#[verifier::external_body]
pub fn now_millis() -> u64 {
    std::time::SystemTime::now()
        .duration_since(std::time::SystemTime::UNIX_EPOCH)
        .map(|d| d.as_millis() as u64)
        .unwrap_or(0)
}

/// The age comparison against a given reading of the clock, in seconds.
pub fn is_older_at(unix_millis: u64, n_seconds: u64, now_seconds: u64) -> (r: bool)
    ensures
        r == spec_is_older(unix_millis, n_seconds, now_seconds),
{
    let date_seconds = unix_millis / 1000;
    now_seconds > n_seconds && date_seconds < now_seconds - n_seconds
}

/// Whether the moment `unix_millis` lies more than `n_seconds` before now,
/// by the wall clock; `is_older_at` is the same decision against a given
/// clock reading.
pub fn is_date_older_than_n_seconds(unix_millis: u64, n_seconds: &u64) -> bool {
    let now_seconds = now_millis() / 1000;
    is_older_at(unix_millis, *n_seconds, now_seconds)
}

} // verus!
