use clockbench::calibrate::{calibration_from_deltas, scale_sample, CalibrationRatio};
use clockbench::fault::ClockFault;
use clockbench::stats::{aggregate, try_aggregate};

fn ratio(tick_delta: u64, reference_nanos_delta: u64) -> CalibrationRatio {
    CalibrationRatio { tick_delta, reference_nanos_delta }
}

#[test]
fn walk_scenario_percentiles_and_mean() {
    // Ten samples whose cumulative walk is 3, 5, 6, 7, 8, 9, 10 over the
    // distinct values 10, 20, 30, 40, 50, 60, 100: the 50% threshold (5) is
    // first reached at 20 and the 95% threshold (9) at 60.
    let samples: Vec<u64> = vec![10, 10, 10, 20, 20, 30, 40, 50, 60, 100];
    let r = aggregate(&samples, &ratio(1, 1), false);
    assert_eq!(r.count, 10);
    assert_eq!(r.min, 10);
    assert_eq!(r.p50, 20);
    assert_eq!(r.p95, 60);
    assert_eq!(r.max, 100);
    // sum = 10*3 + 20*2 + 30 + 40 + 50 + 60 + 100 = 350 over 10 samples.
    assert_eq!(r.mean, 35);
}

#[test]
fn walk_scenario_order_independent() {
    // The histogram discards generation order: a shuffled set aggregates
    // to the same record.
    let sorted: Vec<u64> = vec![10, 10, 10, 20, 20, 30, 40, 50, 60, 100];
    let shuffled: Vec<u64> = vec![100, 20, 10, 60, 30, 10, 50, 20, 40, 10];
    let r1 = aggregate(&sorted, &ratio(1, 1), false);
    let r2 = aggregate(&shuffled, &ratio(1, 1), false);
    assert_eq!(r1, r2);
}

#[test]
fn aggregation_is_idempotent() {
    // Aggregating the same sample set twice with the same ratio yields an
    // identical record: the record is a pure function of its inputs.
    let samples: Vec<u64> = vec![7, 3, 9, 3, 11, 7, 7];
    let r = ratio(3, 500);
    let first = aggregate(&samples, &r, true);
    let second = aggregate(&samples, &r, true);
    assert_eq!(first, second);
}

#[test]
fn calibration_scaling_scenario() {
    // A clock that advanced 2,000,000 ticks while the reference advanced
    // 1,000,000,000 ns runs at 500 ns per tick; 500,000 raw ticks scale to
    // 250,000,000 ns.
    let r = ratio(2_000_000, 1_000_000_000);
    assert_eq!(scale_sample(500_000, &r), 250_000_000);
    let samples: Vec<u64> = vec![500_000, 500_000];
    let rec = aggregate(&samples, &r, true);
    assert_eq!(rec.count, 2);
    assert_eq!(rec.min, 250_000_000);
    assert_eq!(rec.max, 250_000_000);
    assert_eq!(rec.mean, 250_000_000);
    assert_eq!(rec.stddev, 0);
    // Rescaled records carry no drift ratio.
    assert_eq!(rec.drift, None);
}

#[test]
fn scaling_truncates() {
    // 7 ticks at 1,000,000,000 ns per 3,000,000,000 ticks: 7 / 3 truncates.
    let r = ratio(3_000_000_000, 1_000_000_000);
    assert_eq!(scale_sample(7, &r), 2);
}

#[test]
fn single_repeated_value() {
    // A set holding one distinct value v collapses every statistic to v
    // and its standard deviation to zero.
    let samples: Vec<u64> = vec![7, 7, 7, 7, 7];
    let r = aggregate(&samples, &ratio(1, 1), false);
    assert_eq!(r.count, 5);
    assert_eq!(r.min, 7);
    assert_eq!(r.p50, 7);
    assert_eq!(r.p95, 7);
    assert_eq!(r.max, 7);
    assert_eq!(r.mean, 7);
    assert_eq!(r.stddev, 0);
}

#[test]
fn two_samples_stddev() {
    // Two samples are the minimum valid input for a standard deviation:
    // [5, 15] has mean 10 and stddev isqrt((25 + 25) / 1) = 7.
    let samples: Vec<u64> = vec![5, 15];
    let r = aggregate(&samples, &ratio(1, 1), false);
    assert_eq!(r.count, 2);
    assert_eq!(r.mean, 10);
    assert_eq!(r.stddev, 7);
    assert_eq!(r.min, 5);
    assert_eq!(r.max, 15);
    // With count 2, both thresholds (1 and 1) are reached at the smallest
    // value.
    assert_eq!(r.p50, 5);
    assert_eq!(r.p95, 5);
}

#[test]
fn unscaled_record_keeps_drift_ratio() {
    let samples: Vec<u64> = vec![4, 8];
    let r = ratio(3, 2);
    let rec = aggregate(&samples, &r, false);
    assert_eq!(rec.drift, Some(r));
    // Unscaled values enter the histogram untouched.
    assert_eq!(rec.min, 4);
    assert_eq!(rec.max, 8);
}

#[test]
fn too_few_samples_are_refused() {
    // Fewer than two samples is a caller error, not a statistic.
    let r = ratio(1, 1);
    assert_eq!(try_aggregate(&vec![], &r, false), None);
    assert_eq!(try_aggregate(&vec![42], &r, false), None);
    assert!(try_aggregate(&vec![42, 43], &r, false).is_some());
}

#[test]
fn degenerate_ratio_is_refused_when_scaling() {
    // A zero tick delta cannot scale anything.
    let samples: Vec<u64> = vec![1, 2, 3];
    assert_eq!(try_aggregate(&samples, &ratio(0, 5), true), None);
    // Unscaled aggregation never consults the ratio's values.
    assert!(try_aggregate(&samples, &ratio(0, 5), false).is_some());
}

#[test]
fn oversized_products_are_refused() {
    // A sample whose scaling product cannot fit 64 bits is refused rather
    // than wrapped.
    let samples: Vec<u64> = vec![u64::MAX, 1];
    assert_eq!(try_aggregate(&samples, &ratio(1, 2), true), None);
}

#[test]
fn try_aggregate_matches_aggregate() {
    let samples: Vec<u64> = vec![10, 10, 10, 20, 20, 30, 40, 50, 60, 100];
    let r = ratio(1, 1);
    let rec = try_aggregate(&samples, &r, false).unwrap();
    assert_eq!(rec, aggregate(&samples, &r, false));
}

#[test]
fn calibration_from_deltas_validates() {
    assert_eq!(
        calibration_from_deltas(2_000_000, 1_000_000_000),
        Ok(CalibrationRatio { tick_delta: 2_000_000, reference_nanos_delta: 1_000_000_000 })
    );
    assert_eq!(
        calibration_from_deltas(0, 5),
        Err(ClockFault::DegenerateCalibration { tick_delta: 0, reference_nanos_delta: 5 })
    );
    assert_eq!(
        calibration_from_deltas(5, 0),
        Err(ClockFault::DegenerateCalibration { tick_delta: 5, reference_nanos_delta: 0 })
    );
}

#[test]
fn zero_valued_samples_are_ordinary_values() {
    // Scaling can truncate every sample to zero; zero is then an ordinary
    // histogram value and the percentile rule still picks it.
    let samples: Vec<u64> = vec![1, 2, 3];
    let rec = aggregate(&samples, &ratio(10, 1), true);
    assert_eq!(rec.min, 0);
    assert_eq!(rec.p50, 0);
    assert_eq!(rec.p95, 0);
    assert_eq!(rec.max, 0);
    assert_eq!(rec.mean, 0);
    assert_eq!(rec.stddev, 0);
}
