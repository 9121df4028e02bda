//! Bracket sampling over the monotonic instant clock.
//!
//! A sampler drives one clock through repeated bracket measurements —
//! read, run the workload, read again — and collects the intervals. Every
//! sample is checked strictly positive before it enters the set; a clock
//! that fails the check ends the run with a fault instead of a statistic.

use vstd::prelude::*;
use crate::clock::{ClockType, check_interval, elapsed_nanos, instant_now};
use crate::fault::ClockFault;
use crate::workload::dummy_func;

verus! {

/// How many bracket measurements one benchmark run takes.
pub const NUM_SAMPLES: u64 = 1_000_000;

/// A sample set is well formed when every interval in it is strictly
/// positive — the monotonicity invariant, enforced at generation time.
pub open spec fn all_positive(samples: Seq<u64>) -> bool {
    forall|k: int| 0 <= k < samples.len() ==> samples[k] > 0
}

/// Takes `n` bracket measurements of the workload under the monotonic
/// instant clock. On success the set holds exactly `n` intervals, each
/// strictly positive; a reading that does not advance the clock ends the
/// run with that reading's fault.
pub fn sample_instant(n: u64) -> (r: Result<Vec<u64>, ClockFault>)
    requires
        1 <= n <= usize::MAX,
    ensures
        r is Ok ==> r->Ok_0@.len() == n && all_positive(r->Ok_0@),
        r is Err ==> r->Err_0 == (ClockFault::NonPositiveInterval { interval: 0 }),
{
    let mut durations: Vec<u64> = Vec::with_capacity(n as usize);
    let mut i: u64 = 0;
    while i < n
        invariant
            0 <= i <= n,
            durations@.len() == i,
            all_positive(durations@),
        decreases n - i,
    {
        let inst = instant_now();
        core::hint::black_box(dummy_func());
        let d = elapsed_nanos(&inst);
        match check_interval(d) {
            Ok(interval) => {
                durations.push(interval);
            },
            Err(fault) => {
                return Err(fault);
            },
        }
        i = i + 1;
    }
    Ok(durations)
}

/// The benchmark-run sampler over the monotonic instant clock; the clock
/// identifier is unused, since this source always reads the same clock.
pub fn instant(_clock: Option<ClockType>) -> (r: Result<Vec<u64>, ClockFault>)
    ensures
        r is Ok ==> r->Ok_0@.len() == NUM_SAMPLES && all_positive(r->Ok_0@),
        r is Err ==> r->Err_0 == (ClockFault::NonPositiveInterval { interval: 0 }),
{
    sample_instant(NUM_SAMPLES)
}

} // verus!
