//! A stopwatch over the monotonic clock of std.

use std::time::{Duration, Instant};
use vstd::prelude::*;

verus! {

/// `std::time::Instant`, of which nothing is known but that it can be held.
#[verifier::external_type_specification]
#[verifier::external_body]
pub struct ExInstant(Instant);

/// `Instant::now`: the reading of the clock. Nothing is claimed of it.
#[verifier::external_body]
fn clock_now() -> Instant {
    Instant::now()
}

/// `Instant::elapsed`: the time since `start`. Nothing is claimed of it.
#[verifier::external_body]
fn elapsed_since(start: &Instant) -> Duration {
    start.elapsed()
}

/// `Duration::as_millis`: the whole milliseconds of a duration. The duration
/// is opaque here, so nothing is claimed of the number.
#[verifier::external_body]
fn whole_millis(elapsed: &Duration) -> u128 {
    elapsed.as_millis()
}

/// `Duration::as_micros`: the whole microseconds of a duration. Nothing is
/// claimed of the number.
#[verifier::external_body]
fn whole_micros(elapsed: &Duration) -> u128 {
    elapsed.as_micros()
}

/// `Duration::as_nanos`: the nanoseconds of a duration. Nothing is claimed
/// of the number.
#[verifier::external_body]
fn whole_nanos(elapsed: &Duration) -> u128 {
    elapsed.as_nanos()
}

/// Measures laps: each lap runs from the last reading of the clock to the
/// next. What a lap returns is what the clock says; no contract can say
/// more of it than its type.
pub struct StopWatch {
    start: Instant,
}

impl StopWatch {
    /// A stopwatch started now.
    pub fn now() -> StopWatch {
        StopWatch { start: clock_now() }
    }

    /// The whole milliseconds since the last start; starts the next lap.
    pub fn lap_millis(&mut self) -> u128 {
        let elapsed = elapsed_since(&self.start);
        let elapsed_millis = whole_millis(&elapsed);
        self.start = clock_now();
        elapsed_millis
    }

    /// The whole microseconds since the last start; starts the next lap.
    pub fn lap_micros(&mut self) -> u128 {
        let elapsed = elapsed_since(&self.start);
        let elapsed_micros = whole_micros(&elapsed);
        self.start = clock_now();
        elapsed_micros
    }

    /// The nanoseconds since the last start; starts the next lap.
    pub fn lap_nanos(&mut self) -> u128 {
        let elapsed = elapsed_since(&self.start);
        let elapsed_nanos = whole_nanos(&elapsed);
        self.start = clock_now();
        elapsed_nanos
    }

    /// Starts the next lap.
    pub fn reset(&mut self) {
        self.start = clock_now();
    }
}

} // verus!
