//! The wall clock.
use std::time::{Duration, SystemTime, UNIX_EPOCH};
use vstd::prelude::*;

verus! {

#[verifier::external_type_specification]
#[verifier::external_body]
pub struct ExSystemTime(std::time::SystemTime);

/// `SystemTime::now()`. Nothing is stated of it: it is the time.
#[verifier::external_body]
fn system_time_now() -> SystemTime {
    SystemTime::now()
}

/// `t.duration_since(UNIX_EPOCH)`, with the error's text where the clock
/// reads before the epoch. Nothing is stated of the duration.
#[verifier::external_body]
fn duration_since_epoch(t: &SystemTime) -> Result<Duration, String> {
    match t.duration_since(UNIX_EPOCH) {
        Ok(d) => Ok(d),
        Err(e) => Err(e.to_string()),
    }
}

/// `Duration::as_millis`. Nothing is stated of it beyond its type.
#[verifier::external_body]
fn duration_as_millis(d: &Duration) -> u128 {
    d.as_millis()
}

/// `Duration::as_secs`. Nothing is stated of it beyond its type.
#[verifier::external_body]
fn duration_as_secs(d: &Duration) -> u64 {
    d.as_secs()
}

/// Whole seconds since the Unix epoch, or the clock's error.
pub fn unix_secs() -> Result<u64, String> {
    let now = system_time_now();
    match duration_since_epoch(&now) {
        Ok(d) => Ok(duration_as_secs(&d)),
        Err(e) => Err(e),
    }
}

/// Whole seconds since the Unix epoch, zero when the clock reads before it.
pub fn now_unix_secs() -> u64 {
    match unix_secs() {
        Ok(s) => s,
        Err(_) => 0,
    }
}

/// Milliseconds since the Unix epoch, zero when the clock reads before it.
pub fn now_unix_millis() -> u128 {
    let now = system_time_now();
    match duration_since_epoch(&now) {
        Ok(d) => duration_as_millis(&d),
        Err(_) => 0,
    }
}

} // verus!
