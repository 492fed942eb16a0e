//! Clock readings for diagnostic timings.
use vstd::prelude::*;

verus! {

/// Microseconds since the Unix epoch on the system clock, or zero when the
/// clock reads earlier than the epoch. Wraps `SystemTime::now` and
/// `duration_since`; nothing is promised of the value, which depends on the
/// clock.
#[verifier::external_body]
pub(crate) fn diagnostic_clock_microseconds() -> u128 {
    match std::time::SystemTime::now().duration_since(std::time::UNIX_EPOCH) {
        Ok(duration) => duration.as_micros(),
        Err(_) => 0,
    }
}

/// Microseconds elapsed since `started`, zero when the clock went back.
pub(crate) fn elapsed_microseconds(started: u128) -> (elapsed: u128) {
    let now = diagnostic_clock_microseconds();
    if now >= started {
        now - started
    } else {
        0
    }
}

} // verus!
