//! The monotonic clock, read in nanoseconds.
use vstd::prelude::*;
use crate::sys::clock_monotonic;

verus! {

/// Nanoseconds in one second.
pub const NANOS_PER_SEC: u64 = 1_000_000_000;

/// The nanosecond count of a `timespec` reading: `sec * 10^9 + nsec`, with a
/// negative field read as 0 and a sum past `u64::MAX` held at `u64::MAX`.
pub open spec fn timespec_nanos(sec: i64, nsec: i64) -> u64 {
    let s: int = if sec < 0 { 0 } else { sec as int };
    let n: int = if nsec < 0 { 0 } else { nsec as int };
    let total = s * NANOS_PER_SEC + n;
    if total > u64::MAX { u64::MAX } else { total as u64 }
}

/// Converts the two fields of a `timespec` into nanoseconds.
pub fn timespec_to_nanos(sec: i64, nsec: i64) -> (r: u64)
    ensures
        r == timespec_nanos(sec, nsec),
{
    let s: u64 = if sec < 0 { 0 } else { sec as u64 };
    let n: u64 = if nsec < 0 { 0 } else { nsec as u64 };
    let secs_max: u64 = u64::MAX / NANOS_PER_SEC;
    if s > secs_max {
        assert(s * NANOS_PER_SEC > u64::MAX) by (nonlinear_arith)
            requires s > secs_max, secs_max == u64::MAX / NANOS_PER_SEC;
        return u64::MAX;
    }
    assert(s * NANOS_PER_SEC <= u64::MAX) by (nonlinear_arith)
        requires s <= secs_max, secs_max == u64::MAX / NANOS_PER_SEC;
    let base: u64 = s * NANOS_PER_SEC;
    if n > u64::MAX - base {
        u64::MAX
    } else {
        base + n
    }
}

/// Reads `CLOCK_MONOTONIC` in nanoseconds; a failed reading counts as 0.
/// The value rests on the time of the call, so nothing is stated of it.
pub fn monotonic_now_nanos() -> (r: u64) {
    match clock_monotonic() {
        Ok((sec, nsec)) => timespec_to_nanos(sec, nsec),
        Err(_) => 0,
    }
}

} // verus!
