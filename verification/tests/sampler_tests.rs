use clockbench::hist::Histogram;
use clockbench::sampler::{instant, sample_instant, NUM_SAMPLES};
use clockbench::workload::dummy_func;

#[test]
fn workload_is_deterministic() {
    // The workload's cost defeats the optimizer, but its value is a fixed
    // function: the exclusive-or fold of i * j over the 30-by-29 grid.
    assert_eq!(dummy_func(), 992);
    assert_eq!(dummy_func(), dummy_func());
}

#[test]
fn sample_set_has_requested_length() {
    let samples = sample_instant(250).expect("the monotonic clock went backwards");
    assert_eq!(samples.len(), 250);
}

#[test]
fn samples_are_strictly_positive() {
    let samples = sample_instant(1000).expect("the monotonic clock went backwards");
    for s in &samples {
        assert!(*s > 0);
    }
}

#[test]
fn benchmark_run_takes_a_million_samples() {
    let samples = instant(None).expect("the monotonic clock went backwards");
    assert_eq!(samples.len(), NUM_SAMPLES as usize);
    for s in &samples {
        assert!(*s > 0);
    }
}

#[test]
fn histogram_counts_occurrences() {
    let mut h = Histogram::new();
    for v in [5u64, 3, 5, 5, 9, 3] {
        h.record(v);
    }
    assert_eq!(h.count_of(5), 3);
    assert_eq!(h.count_of(3), 2);
    assert_eq!(h.count_of(9), 1);
    assert_eq!(h.count_of(4), 0);
}

#[test]
fn histogram_keys_come_out_ascending() {
    let mut h = Histogram::new();
    for v in [50u64, 3, 17, 3, 50, 11] {
        h.record(v);
    }
    assert_eq!(h.sorted_keys().clone(), vec![3, 11, 17, 50]);
}
