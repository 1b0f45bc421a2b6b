//! Readings of the system clocks. Nothing is stated of the values returned:
//! they depend on the time at which they are read.

use vstd::prelude::*;

verus! {

/// `std::time::Instant`, a reading of the monotonic clock.
#[verifier::external_type_specification]
#[verifier::external_body]
pub struct ExInstant(std::time::Instant);

/// Reads the monotonic clock (`Instant::now`).
#[verifier::external_body]
pub(crate) fn start_clock() -> (r: std::time::Instant) {
    std::time::Instant::now()
}

/// Milliseconds elapsed since `start` (`Instant::elapsed`), truncated to 64 bits.
#[verifier::external_body]
pub(crate) fn elapsed_millis(start: &std::time::Instant) -> (r: u64) {
    start.elapsed().as_millis() as u64
}

/// Seconds since the Unix epoch by the wall clock (`SystemTime::elapsed` on
/// `UNIX_EPOCH`), or 0 when the clock reads earlier than the epoch.
#[verifier::external_body]
pub(crate) fn unix_time_secs() -> (r: u64) {
    match std::time::UNIX_EPOCH.elapsed() {
        Ok(d) => d.as_secs(),
        Err(_) => 0,
    }
}

} // verus!
