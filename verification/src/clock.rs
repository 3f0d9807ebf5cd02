//! Wall-clock time, read from the operating system.
//!
//! Nothing is promised of what the clock says: callers are verified for
//! every reading.

use std::time::Duration;
use std::time::SystemTime;
use std::time::SystemTimeError;
use vstd::prelude::*;

verus! {

/// `std::time::SystemTime`, a point in wall-clock time; opaque here.
#[verifier::external_type_specification]
#[verifier::external_body]
pub struct ExSystemTime(SystemTime);

/// `std::time::SystemTimeError`, what `duration_since` reports when the
/// second point lies after the first.
#[verifier::external_type_specification]
#[verifier::external_body]
pub struct ExSystemTimeError(SystemTimeError);

/// `SystemTime::now` reads the system clock. The reading is not a function
/// of anything the program holds, so nothing is said of it.
pub assume_specification[ SystemTime::now ]() -> (now: SystemTime)
;

/// `SystemTime::duration_since` measures the time from `earlier` to `t`, or
/// reports an error when `earlier` is the later of the two.
pub assume_specification[ SystemTime::duration_since ](t: &SystemTime, earlier: SystemTime) -> (r:
    Result<Duration, SystemTimeError>)
;

/// `Duration::as_millis` gives the whole milliseconds in a duration.
pub assume_specification[ Duration::as_millis ](d: &Duration) -> (ms: u128)
;

/// The anchor of Unix time, `std::time::UNIX_EPOCH`.
#[verifier::external_body]
fn unix_epoch() -> SystemTime {
    std::time::UNIX_EPOCH
}

/// A count of milliseconds as a `u64`: the count itself, or the largest
/// `u64` where it does not fit.
pub open spec fn clamped(ms: u128) -> u64 {
    if ms > u64::MAX {
        u64::MAX
    } else {
        ms as u64
    }
}

/// A count of milliseconds as a `u64`, the largest `u64` standing for all
/// that do not fit.
pub fn clamp_millis(ms: u128) -> (out: u64)
    ensures
        out == clamped(ms),
{
    if ms > 0xffff_ffff_ffff_ffff {
        u64::MAX
    } else {
        ms as u64
    }
}

/// Milliseconds since the Unix epoch according to the system clock; 0 when
/// the clock is set before the epoch. The reading is whatever the clock
/// says: callers are verified for every value.
pub fn now_millis() -> u64 {
    let now = SystemTime::now();
    let elapsed = match now.duration_since(unix_epoch()) {
        Ok(d) => Some(d.as_millis()),
        Err(_) => None,
    };
    millis_since_epoch(elapsed)
}

/// What a clock reads that is `elapsed` milliseconds past the Unix epoch:
/// that count as a `u64`; 0 for a clock that is set before the epoch, for
/// which `elapsed` is `None`.
pub open spec fn reading(elapsed: Option<u128>) -> u64 {
    match elapsed {
        Some(ms) => clamped(ms),
        None => 0,
    }
}

/// What a clock reads that is `elapsed` milliseconds past the Unix epoch.
pub fn millis_since_epoch(elapsed: Option<u128>) -> (out: u64)
    ensures
        out == reading(elapsed),
{
    match elapsed {
        Some(ms) => clamp_millis(ms),
        None => 0,
    }
}

/// Whole seconds in a count of milliseconds.
pub open spec fn millis_to_secs(ms: u64) -> u64 {
    ms / 1000
}

/// Whole seconds in a count of milliseconds.
pub fn seconds_of(ms: u64) -> (s: u64)
    ensures
        s == millis_to_secs(ms),
{
    ms / 1000
}

} // verus!
