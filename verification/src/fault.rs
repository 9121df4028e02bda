//! Faults that end a clock's benchmark run.
//!
//! A clock that hands back a non-increasing pair of readings, or a
//! calibration interval over which a clock did not advance, signals a broken
//! or stepped primitive; any statistic computed past that point would be
//! meaningless. Each fault carries the offending values so the caller can
//! report them.

use vstd::prelude::*;

verus! {

/// Why a benchmark run over one clock had to stop.
#[derive(Clone, Copy, Debug, PartialEq, Eq, Structural)]
pub enum ClockFault {
    /// A bracket measurement read `after` that was not strictly greater than
    /// `before`.
    NonMonotonic { before: u64, after: u64 },
    /// An elapsed-time reading that was not strictly positive.
    NonPositiveInterval { interval: u64 },
    /// A calibration pass over which one of the two clocks did not advance.
    DegenerateCalibration { tick_delta: u64, reference_nanos_delta: u64 },
}

} // verus!
