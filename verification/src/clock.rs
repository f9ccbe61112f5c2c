//! The wall clock, read at the edges of the time-dependent functions.
use vstd::prelude::*;

verus! {

/// Seconds since the Unix epoch, read from `std::time::SystemTime::now`.
///
/// The value depends on the machine's clock, so nothing is stated of it;
/// a clock before the epoch reads as 0.
#[verifier::external_body]
pub fn now_seconds() -> i64 {
    std::time::SystemTime::now().duration_since(std::time::UNIX_EPOCH).map_or(0, |d| d.as_secs() as i64)
}

/// A clock reading as an unsigned count of seconds: a reading before the
/// epoch counts as 0.
pub open spec fn epoch_seconds_of(s: i64) -> u64 {
    if s < 0 {
        0
    } else {
        s as u64
    }
}

/// The unsigned count of seconds of a clock reading.
pub fn epoch_seconds(s: i64) -> (r: u64)
    ensures
        r == epoch_seconds_of(s),
{
    if s < 0 {
        0
    } else {
        s as u64
    }
}

/// Seconds since the Unix epoch as an unsigned count; a clock before the
/// epoch reads as 0. The reading is not known, so only that the count is
/// that of some reading is stated.
pub fn current_epoch_seconds() -> (r: u64)
    ensures
        exists|s: i64| r == epoch_seconds_of(s),
{
    let s = now_seconds();
    epoch_seconds(s)
}

/// Milliseconds since the Unix epoch, read from `std::time::SystemTime::now`.
///
/// The value depends on the machine's clock, so nothing is stated of it; a
/// clock before the epoch reads as 0.
#[verifier::external_body]
pub fn now_millis() -> u64 {
    std::time::SystemTime::now().duration_since(std::time::UNIX_EPOCH).map_or(0, |d| d.as_millis() as u64)
}

} // verus!
