//! The wall clock.
use vstd::prelude::*;
use std::time::{Duration, SystemTime};

verus! {

/// A point in time of the system clock.
#[verifier::external_type_specification]
#[verifier::external_body]
pub struct ExSystemTime(SystemTime);

/// `SystemTime::now`: the current time. Nothing is promised of it.
#[verifier::external_body]
fn system_now() -> SystemTime {
    SystemTime::now()
}

/// `SystemTime::duration_since(UNIX_EPOCH)`: the time since the epoch, `None`
/// for a time before it. Nothing is promised of it: it depends on the clock.
#[verifier::external_body]
fn since_epoch(t: &SystemTime) -> Option<Duration> {
    t.duration_since(std::time::UNIX_EPOCH).ok()
}

/// `Duration::as_nanos`: the whole nanoseconds of a duration. Nothing is
/// stated of the value, which only carries a reading of the clock through.
#[verifier::external_body]
fn duration_nanos(d: &Duration) -> u128 {
    d.as_nanos()
}

/// Nanoseconds since the UNIX epoch; 0 for a clock set before the epoch.
/// Nothing is promised of the value: it is the time.
pub fn now_nanos() -> u128 {
    let now = system_now();
    match since_epoch(&now) {
        Some(d) => duration_nanos(&d),
        None => 0,
    }
}

} // verus!
