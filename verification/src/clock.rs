//! Clock readings and the monotonicity checks applied to them.
//!
//! Every sampler brackets its workload between two readings of one clock.
//! The arithmetic on those readings — interval computation, timespec
//! conversion, and the fatal-on-regression policy — lives here as verified
//! code; the platform primitives that produce the readings stay outside the
//! library, except for the process-wide monotonic instant clock, which is
//! reached through trusted wrappers below.

use vstd::prelude::*;
use crate::fault::ClockFault;

verus! {

/// The identifier of an OS clock family, passed through to the platform
/// read primitive; samplers that read a fixed clock ignore it.
pub type ClockType = i32;

/// The number of nanoseconds in one second, the unit step of a timespec.
pub const NANOS_PER_SEC: i64 = 1_000_000_000;

/// The duration of a bracket measurement: `after - before`, defined when the
/// clock moved forward.
pub open spec fn spec_bracket_delta(before: u64, after: u64) -> int {
    after - before
}

/// The total nanosecond value of a timespec reading.
pub open spec fn spec_timespec_nanos(sec: i64, nsec: i64) -> int {
    sec * NANOS_PER_SEC + nsec
}

/// Checks one bracket measurement. Succeeds exactly when the clock moved
/// strictly forward, returning the elapsed interval; a reading that did not
/// advance is a clock regression, fatal to the run that saw it.
pub fn check_bracket(before: u64, after: u64) -> (r: Result<u64, ClockFault>)
    ensures
        after > before <==> r is Ok,
        r is Ok ==> r->Ok_0 == spec_bracket_delta(before, after) && r->Ok_0 > 0,
        r is Err ==> r->Err_0 == (ClockFault::NonMonotonic { before, after }),
{
    if after > before {
        Ok(after - before)
    } else {
        Err(ClockFault::NonMonotonic { before, after })
    }
}

/// Checks an elapsed-time reading taken in one call. Succeeds exactly when
/// the interval is strictly positive.
pub fn check_interval(interval: u64) -> (r: Result<u64, ClockFault>)
    ensures
        interval > 0 <==> r is Ok,
        r is Ok ==> r->Ok_0 == interval,
        r is Err ==> r->Err_0 == (ClockFault::NonPositiveInterval { interval }),
{
    if interval > 0 {
        Ok(interval)
    } else {
        Err(ClockFault::NonPositiveInterval { interval })
    }
}

/// The nanosecond interval between two timespec readings of one clock.
/// Succeeds exactly when the second reading is strictly later; the bounds in
/// the precondition are what a well-formed timespec from a non-negative OS
/// clock satisfies, and keep every product inside `i64`.
pub fn timespec_delta_nanos(sec1: i64, nsec1: i64, sec2: i64, nsec2: i64) -> (r: Result<
    u64,
    ClockFault,
>)
    requires
        0 <= sec1 <= ((i64::MAX - NANOS_PER_SEC) as int) / (NANOS_PER_SEC as int),
        0 <= sec2 <= ((i64::MAX - NANOS_PER_SEC) as int) / (NANOS_PER_SEC as int),
        0 <= nsec1 < NANOS_PER_SEC,
        0 <= nsec2 < NANOS_PER_SEC,
    ensures
        spec_timespec_nanos(sec2, nsec2) > spec_timespec_nanos(sec1, nsec1) <==> r is Ok,
        r is Ok ==> r->Ok_0 == spec_timespec_nanos(sec2, nsec2) - spec_timespec_nanos(
            sec1,
            nsec1,
        ),
        r is Err ==> r->Err_0 == (ClockFault::NonMonotonic {
            before: spec_timespec_nanos(sec1, nsec1) as u64,
            after: spec_timespec_nanos(sec2, nsec2) as u64,
        }),
{
    let total1: i64 = sec1 * NANOS_PER_SEC + nsec1;
    let total2: i64 = sec2 * NANOS_PER_SEC + nsec2;
    if total2 > total1 {
        Ok((total2 - total1) as u64)
    } else {
        Err(ClockFault::NonMonotonic { before: total1 as u64, after: total2 as u64 })
    }
}

/// Declares `std::time::Instant`, the process-wide monotonic clock used as
/// the calibration reference and as one of the benchmarked sources.
#[verifier::external_type_specification]
#[verifier::external_body]
pub struct ExInstant(std::time::Instant);

/// Relies on `std::time::Instant::now`: an opaque reading of the monotonic
/// clock. Nothing is promised of the value; callers validate what they
/// derive from it.
#[verifier::external_body]
pub fn instant_now() -> std::time::Instant {
    std::time::Instant::now()
}

/// Relies on `std::time::Instant::elapsed` and `Duration::as_nanos`: the
/// nanoseconds since `t`, truncated into `u64`. The value depends on when
/// the call runs, so nothing is promised of it; callers validate it.
#[verifier::external_body]
pub fn elapsed_nanos(t: &std::time::Instant) -> u64 {
    t.elapsed().as_nanos() as u64
}

} // verus!
