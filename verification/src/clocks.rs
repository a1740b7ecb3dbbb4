//! The arithmetic of measuring the frequency of the cycle counter against a
//! timer of known frequency. Reading the two is left to the caller.

use vstd::prelude::*;

verus! {

/// The number of ticks of a timer of `os_clocks_per_sec` ticks per second
/// that make `measure_time_ms` milliseconds, with the timer's frequency
/// first brought down to whole ticks per millisecond; `None` where the
/// number does not fit.
pub fn os_wait_clocks(os_clocks_per_sec: u64, measure_time_ms: u64) -> (r: Option<u64>)
    ensures
        r == if os_clocks_per_sec / 1000 * measure_time_ms <= u64::MAX {
            Some((os_clocks_per_sec / 1000 * measure_time_ms) as u64)
        } else {
            None
        },
{
    (os_clocks_per_sec / 1000).checked_mul(measure_time_ms)
}

/// The cycles per second of a counter that went on by `cpu_timer_elapsed`
/// while a timer of `os_clocks_per_sec` ticks per second went on by
/// `os_timer_elapsed`; `None` where the timer did not go on or the product
/// does not fit.
pub fn cpu_clocks_per_second(cpu_timer_elapsed: u64, os_clocks_per_sec: u64, os_timer_elapsed: u64)
    -> (r: Option<u64>)
    ensures
        r == if os_timer_elapsed > 0 && cpu_timer_elapsed * os_clocks_per_sec <= u64::MAX {
            Some((cpu_timer_elapsed * os_clocks_per_sec / (os_timer_elapsed as int)) as u64)
        } else {
            None
        },
{
    if os_timer_elapsed == 0 {
        return None;
    }
    match cpu_timer_elapsed.checked_mul(os_clocks_per_sec) {
        Some(product) => Some(product / os_timer_elapsed),
        None => None,
    }
}

} // verus!
