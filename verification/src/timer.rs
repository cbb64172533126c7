//! Timer arithmetic: tick-to-microsecond conversion and the next
//! preemption deadline.  Reading the time register and arming the timer
//! are hardware steps outside this crate.

use vstd::prelude::*;
use crate::config::CLOCK_FREQ;

verus! {

/// Scheduling ticks per second.
pub const TICKS_PER_SEC: u64 = 100;

/// Microseconds per second.
pub const MICRO_PER_SEC: u64 = 1_000_000;

/// The microsecond count a raw tick count corresponds to.
pub fn get_time_us(ticks: u64) -> (r: u64)
    ensures
        r == ticks / (CLOCK_FREQ / MICRO_PER_SEC),
{
    ticks / (CLOCK_FREQ / MICRO_PER_SEC)
}

/// The deadline to arm for the next scheduling tick, one fixed interval
/// past the current tick count.
pub fn set_next_trigger(now_ticks: u64) -> (r: u64)
    requires
        now_ticks <= u64::MAX - CLOCK_FREQ / TICKS_PER_SEC,
    ensures
        r == now_ticks + CLOCK_FREQ / TICKS_PER_SEC,
{
    now_ticks + CLOCK_FREQ / TICKS_PER_SEC
}

} // verus!
