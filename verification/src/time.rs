//! Timer arithmetic: conversion from delays in milliseconds or
//! microseconds to the absolute tick value to program into the timer
//! compare register.
//!
//! Reading the current time and writing the compare register go through
//! assembly trampolines; the caller performs those and passes the current
//! tick count in.

use vstd::prelude::*;

verus! {

/// Timer frequency in ticks / second.
pub const TIMER_FREQ: u64 = 400_0000;

/// Timer frequency in ticks / microsecond.
pub const US_TO_TICKS: u64 = TIMER_FREQ / 100_0000;

/// Computes the timer compare value that fires an interrupt `delay_us`
/// microseconds after the time `now` (the current mtime value). The caller
/// writes the result to the timer compare register.
pub fn set_timecmp_delay(now: u64, delay_us: u64) -> (target: u64)
    requires
        now + delay_us * US_TO_TICKS <= u64::MAX,
    ensures
        target == now + delay_us * US_TO_TICKS,
{
    now + delay_us * US_TO_TICKS
}

/// Computes the timer compare value that fires an interrupt `delay_ms`
/// milliseconds after the time `now` (the current mtime value).
pub fn set_timecmp_delay_ms(now: u64, delay_ms: u64) -> (target: u64)
    requires
        now + delay_ms * 1000 * US_TO_TICKS <= u64::MAX,
    ensures
        target == now + delay_ms * 1000 * US_TO_TICKS,
{
    proof {
        assert(delay_ms * 1000 <= u64::MAX) by (nonlinear_arith)
            requires
                now + delay_ms * 1000 * US_TO_TICKS <= u64::MAX,
                US_TO_TICKS >= 1,
        ;
    }
    set_timecmp_delay(now, delay_ms * 1000)
}

} // verus!
