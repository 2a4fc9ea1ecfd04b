//! The build time of a frame, read from the system's monotonic clock.

use vstd::prelude::*;
use std::time::Duration;
use std::time::Instant;

verus! {

#[verifier::external_type_specification]
#[verifier::external_body]
pub struct ExInstant(Instant);

/// Relies on `std::time::Instant::now`: the current instant. Nothing is known of it.
#[verifier::external_body]
fn now() -> (r: Instant) {
    Instant::now()
}

/// Relies on `std::time::Instant::elapsed`: the time since `start` (zero if the clock
/// reads earlier). Nothing is known of it.
#[verifier::external_body]
fn elapsed(start: &Instant) -> (r: Duration) {
    start.elapsed()
}

/// Relies on `std::time::Duration::as_nanos`: the whole nanoseconds of `d`.
#[verifier::external_body]
fn duration_nanos(d: Duration) -> (r: u128) {
    d.as_nanos()
}

/// A running measurement of build time.
pub struct BuildTimer {
    pub start: Instant,
}

impl BuildTimer {
    /// Starts measuring.
    pub fn start() -> (r: BuildTimer) {
        BuildTimer { start: now() }
    }

    /// Nanoseconds since the start, saturated to 64 bits.
    pub fn elapsed_nanos(&self) -> (r: u64) {
        let n = duration_nanos(elapsed(&self.start));
        if n > u64::MAX as u128 {
            u64::MAX
        } else {
            n as u64
        }
    }
}

} // verus!
