//! Averaging the running time of a piece of work.
use vstd::prelude::*;
use std::time::{Duration, Instant};
use crate::maths::min;

verus! {

#[verifier::external_type_specification]
#[verifier::external_body]
pub struct ExInstant(Instant);

/// How many times `time` runs the work.
pub const TIMES: u32 = 100;

/// Relies on `Instant::now`: reads the monotonic clock; nothing is known of the value.
#[verifier::external_body]
fn now() -> (r: Instant) {
    Instant::now()
}

/// Relies on `Instant - Instant`: the time from `start` to `end`, which std
/// documents as saturating at zero rather than panicking.
#[verifier::external_body]
fn between(end: Instant, start: Instant) -> (r: Duration) {
    end - start
}

/// Relies on `Duration::as_nanos`: the whole nanoseconds of a duration.
#[verifier::external_body]
fn as_nanos(d: Duration) -> (r: u128) {
    d.as_nanos()
}

/// Relies on `Duration::from_nanos`: a duration of `n` nanoseconds.
#[verifier::external_body]
fn from_nanos(n: u64) -> (r: Duration) {
    Duration::from_nanos(n)
}

/// The mean of `times` runs that took `total` nanoseconds together, rounded
/// down, as a number of nanoseconds that fits in a `u64` (saturating).
pub fn mean_nanos(total: u128, times: u32) -> (r: u64)
    requires
        times > 0,
    ensures
        r == min(total as int / times as int, u64::MAX as int),
{
    let m: u128 = total / times as u128;
    if m > u64::MAX as u128 {
        u64::MAX
    } else {
        m as u64
    }
}

/// Runs `f` `TIMES` times and returns the mean time that one run took:
/// the time between the clock readings before and after, over `TIMES`.
pub fn time<F: Fn()>(f: F) -> (r: Duration)
    requires
        f.requires(()),
{
    let start = now();
    let mut i: u32 = 0;
    while i < TIMES
        invariant
            f.requires(()),
        decreases TIMES - i,
    {
        f();
        i += 1;
    }
    let end = now();
    from_nanos(mean_nanos(as_nanos(between(end, start)), TIMES))
}

} // verus!
