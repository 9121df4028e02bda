use clockbench::clock::{check_bracket, check_interval, timespec_delta_nanos, NANOS_PER_SEC};
use clockbench::fault::ClockFault;

#[test]
fn bracket_accepts_forward_motion() {
    assert_eq!(check_bracket(100, 350), Ok(250));
}

#[test]
fn bracket_rejects_stalled_clock() {
    assert_eq!(
        check_bracket(100, 100),
        Err(ClockFault::NonMonotonic { before: 100, after: 100 })
    );
}

#[test]
fn bracket_rejects_regression() {
    assert_eq!(
        check_bracket(500, 400),
        Err(ClockFault::NonMonotonic { before: 500, after: 400 })
    );
}

#[test]
fn interval_must_be_positive() {
    assert_eq!(check_interval(1), Ok(1));
    assert_eq!(
        check_interval(0),
        Err(ClockFault::NonPositiveInterval { interval: 0 })
    );
}

#[test]
fn timespec_delta_spans_a_second_boundary() {
    // From 1.999999000 s to 2.000000500 s: 1500 ns elapsed.
    assert_eq!(timespec_delta_nanos(1, 999_999_000, 2, 500), Ok(1_500));
}

#[test]
fn timespec_delta_within_one_second() {
    assert_eq!(timespec_delta_nanos(5, 100, 5, 400), Ok(300));
}

#[test]
fn timespec_delta_rejects_regression() {
    let before = 3 * NANOS_PER_SEC + 700;
    let after = 3 * NANOS_PER_SEC + 200;
    assert_eq!(
        timespec_delta_nanos(3, 700, 3, 200),
        Err(ClockFault::NonMonotonic { before: before as u64, after: after as u64 })
    );
}

#[test]
fn timespec_delta_rejects_identical_readings() {
    assert_eq!(
        timespec_delta_nanos(9, 42, 9, 42),
        Err(ClockFault::NonMonotonic {
            before: (9 * NANOS_PER_SEC + 42) as u64,
            after: (9 * NANOS_PER_SEC + 42) as u64
        })
    );
}
