//! Calibration of a clock against a nanosecond reference.
//!
//! A calibration pass brackets a settle interval with one reading of the
//! clock under test and one of the reference; the two deltas form a ratio
//! that later scales raw ticks into nanoseconds. The readings themselves are
//! taken by the caller; this module owns the validation and the scaling
//! arithmetic.

use vstd::prelude::*;
use crate::fault::ClockFault;

verus! {

/// The conversion ratio between a clock's native ticks and reference
/// nanoseconds, measured over one settle interval: the clock advanced
/// `tick_delta` ticks while the reference advanced `reference_nanos_delta`
/// nanoseconds. Held immutably for the remainder of the run.
#[derive(Clone, Copy, Debug, PartialEq, Eq, Structural)]
pub struct CalibrationRatio {
    pub tick_delta: u64,
    pub reference_nanos_delta: u64,
}

impl CalibrationRatio {
    /// A usable ratio: both clocks advanced over the settle interval.
    pub open spec fn wf(self) -> bool {
        self.tick_delta > 0 && self.reference_nanos_delta > 0
    }
}

/// The nanosecond value of `sample` raw ticks under `ratio`, with the
/// truncating integer division the pipeline uses throughout.
pub open spec fn spec_scaled_value(sample: u64, ratio: CalibrationRatio) -> int {
    (sample * ratio.reference_nanos_delta) / (ratio.tick_delta as int)
}

/// Validates the two deltas of a calibration pass. Succeeds exactly when
/// both clocks advanced; a zero delta is a degenerate calibration (the
/// settle interval was too short for that clock's resolution).
pub fn calibration_from_deltas(tick_delta: u64, reference_nanos_delta: u64) -> (r: Result<
    CalibrationRatio,
    ClockFault,
>)
    ensures
        tick_delta > 0 && reference_nanos_delta > 0 <==> r is Ok,
        r is Ok ==> r->Ok_0 == (CalibrationRatio { tick_delta, reference_nanos_delta })
            && r->Ok_0.wf(),
        r is Err ==> r->Err_0 == (ClockFault::DegenerateCalibration {
            tick_delta,
            reference_nanos_delta,
        }),
{
    if tick_delta > 0 && reference_nanos_delta > 0 {
        Ok(CalibrationRatio { tick_delta, reference_nanos_delta })
    } else {
        Err(ClockFault::DegenerateCalibration { tick_delta, reference_nanos_delta })
    }
}

/// Scales one raw sample into nanoseconds: `sample * reference_nanos_delta /
/// tick_delta`, truncating.
pub fn scale_sample(sample: u64, ratio: &CalibrationRatio) -> (r: u64)
    requires
        ratio.wf(),
        sample * ratio.reference_nanos_delta <= u64::MAX,
    ensures
        r == spec_scaled_value(sample, *ratio),
{
    (sample * ratio.reference_nanos_delta) / ratio.tick_delta
}

} // verus!
