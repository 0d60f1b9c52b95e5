//! Times and what is left of them.
//!
//! A time is a number of nanoseconds on a clock that never goes back.

use vstd::prelude::*;

verus! {

/// Whole milliseconds from `started` to `now`; none where `now` is earlier.
pub open spec fn millis_since(started: u64, now: u64) -> u64 {
    if now <= started {
        0
    } else {
        ((now - started) / 1_000_000) as u64
    }
}

/// What is left of `total` once `spent` is gone.
pub open spec fn left_of(total: u64, spent: int) -> u64 {
    if spent >= total {
        0
    } else {
        (total - spent) as u64
    }
}

/// Game ticks, of which there are twenty in a second, that are left of
/// `duration` ticks after so many milliseconds.
pub open spec fn ticks_left(elapsed_millis: u64, duration: u64) -> u64 {
    left_of(duration, elapsed_millis * 20 / 1000)
}

/// Whole milliseconds from `started` to `now`.
pub fn elapsed_millis(started: u64, now: u64) -> (r: u64)
    ensures
        r == millis_since(started, now),
{
    if now <= started {
        0
    } else {
        (now - started) / 1_000_000
    }
}

/// What is left of `total` once `spent` is gone.
pub fn remaining(total: u64, spent: u64) -> (r: u64)
    ensures
        r == left_of(total, spent as int),
{
    if spent >= total {
        0
    } else {
        total - spent
    }
}

/// Game ticks that are left of `duration` ticks after so many milliseconds.
pub fn remaining_ticks(elapsed_millis: u64, duration: u64) -> (r: u64)
    ensures
        r == ticks_left(elapsed_millis, duration),
{
    let spent: u128 = elapsed_millis as u128 * 20 / 1000;
    if spent >= duration as u128 {
        0
    } else {
        duration - spent as u64
    }
}

/// As time goes by, no more is left.
pub proof fn time_runs_out(started: u64, now: u64, later: u64, duration: u64)
    requires
        now <= later,
    ensures
        ticks_left(millis_since(started, later), duration) <= ticks_left(
            millis_since(started, now),
            duration,
        ),
        left_of(duration, millis_since(started, later) as int) <= left_of(
            duration,
            millis_since(started, now) as int,
        ),
{
    let a = millis_since(started, now) as int;
    let b = millis_since(started, later) as int;
    assert(a <= b) by {
        if now > started {
            assert((now - started) / 1_000_000 <= (later - started) / 1_000_000) by (nonlinear_arith)
                requires
                    now <= later,
            ;
        }
    }
    assert(a * 20 / 1000 <= b * 20 / 1000) by (nonlinear_arith)
        requires
            a <= b,
    ;
}

} // verus!
