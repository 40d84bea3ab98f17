//! The wall clock, in milliseconds since the Unix epoch.
use vstd::prelude::*;
use std::time::{Duration, SystemTime, SystemTimeError, UNIX_EPOCH};

verus! {

#[verifier::external_type_specification]
#[verifier::external_body]
pub struct ExSystemTime(SystemTime);

#[verifier::external_type_specification]
#[verifier::external_body]
pub struct ExSystemTimeError(SystemTimeError);

/// `SystemTime::now`: the current wall-clock time; nothing is stated of it.
#[verifier::external_body]
fn system_now() -> SystemTime {
    SystemTime::now()
}

/// `SystemTime::duration_since(UNIX_EPOCH)`: the time elapsed since the
/// epoch, or an error where the clock is set before it; nothing more is stated.
#[verifier::external_body]
fn since_unix_epoch(t: &SystemTime) -> Result<Duration, SystemTimeError> {
    t.duration_since(UNIX_EPOCH)
}

/// `Duration::as_millis`: the whole milliseconds of a duration; nothing is
/// stated of the value, which depends on a clock reading.
#[verifier::external_body]
fn whole_millis(d: &Duration) -> u128 {
    d.as_millis()
}

/// The millisecond count a clock reading gives: the whole milliseconds
/// since the epoch truncated to 64 bits, or zero where the clock is set
/// before the epoch (`None`).
pub open spec fn millis_of(elapsed_ms: Option<u128>) -> u64 {
    match elapsed_ms {
        Some(ms) => (ms % 0x1_0000_0000_0000_0000) as u64,
        None => 0,
    }
}

/// Turns a clock reading (whole milliseconds since the epoch, or `None`
/// where the clock is set before it) into the 64-bit millisecond count.
pub fn millis_from_reading(elapsed_ms: Option<u128>) -> (ms: u64)
    ensures
        ms == millis_of(elapsed_ms),
{
    match elapsed_ms {
        Some(m) => (m % 0x1_0000_0000_0000_0000u128) as u64,
        None => 0,
    }
}

/// Milliseconds since the Unix epoch by the wall clock (zero where the
/// clock is set before the epoch), truncated to 64 bits.
pub fn now_millis() -> (ms: u64)
    ensures
        exists|elapsed_ms: Option<u128>| ms == #[trigger] millis_of(elapsed_ms),
{
    let now = system_now();
    let reading = match since_unix_epoch(&now) {
        Ok(d) => Some(whole_millis(&d)),
        Err(_) => None,
    };
    millis_from_reading(reading)
}

} // verus!
