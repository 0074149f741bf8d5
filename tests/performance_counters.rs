use macos_perf::{compare_perf_counters, timed_average, ASilPerfError, CounterReading, PerformanceCounters};

fn pc(cycles: i128, branches: i128, missed_branches: i128, instructions: i128, iterations: u64) -> PerformanceCounters {
    PerformanceCounters { cycles, branches, missed_branches, instructions, iterations }
}

#[test]
fn subtract_of_self_is_zero() {
    let x = pc(17, -3, 0, 99, 4);
    let d = PerformanceCounters::subtract(&x, &x);
    assert_eq!((d.cycles, d.branches, d.missed_branches, d.instructions), (0, 0, 0, 0));
}

#[test]
fn subtract_passes_negatives_through() {
    let d = PerformanceCounters::subtract(&pc(5, 5, 5, 5, 1), &pc(8, 5, 2, 6, 1));
    assert_eq!(d, pc(-3, 0, 3, -1, 1));
}

#[test]
fn subtract_with_different_iterations() {
    // 3/2 - 1/3 = 7/6
    let d = PerformanceCounters::subtract(&pc(3, 3, 3, 3, 2), &pc(1, 0, 3, 6, 3));
    assert_eq!(d, pc(7, 9, 3, -3, 6));
}

#[test]
fn divide_then_multiply_back() {
    let end = PerformanceCounters::from(CounterReading { cycles: 1003, branches: 17, missed_branches: 2, instructions: 500 });
    let start = PerformanceCounters::from(CounterReading { cycles: 1, branches: 2, missed_branches: 1, instructions: 0 });
    let d = PerformanceCounters::subtract(&end, &start);
    let q = d.divide(7);
    assert_eq!(q.iterations, 7);
    let back = pc(q.cycles * 7, q.branches * 7, q.missed_branches * 7, q.instructions * 7, q.iterations);
    assert!(back.same_values(&d));
    assert!(!q.same_values(&d));
}

#[test]
fn from_reading_keeps_counts() {
    let r = CounterReading { cycles: u64::MAX, branches: 0, missed_branches: 1, instructions: 2 };
    assert_eq!(PerformanceCounters::from(r), pc(u64::MAX as i128, 0, 1, 2, 1));
}

#[test]
fn compare_of_self_is_zero_percent() {
    let a = pc(100, 10, 1, 50, 3);
    assert_eq!(
        compare_perf_counters(&a, &a),
        "cycles: 0.00% branches: 0.00% missed_branches: 0.00% instructions: 0.00%"
    );
}

#[test]
fn compare_exact_percentages() {
    let a = pc(200, 10, 3, 8, 1);
    let b = pc(100, 15, 2, 7, 1);
    assert_eq!(
        compare_perf_counters(&a, &b),
        "cycles: 50.00% branches: -50.00% missed_branches: 33.33% instructions: 12.50%"
    );
}

#[test]
fn compare_rounds_half_to_even() {
    // 0.005% -> 0.00, 0.015% -> 0.02, 0.025% -> 0.02, 0.035% -> 0.04
    let a = pc(20000, 20000, 20000, 20000, 1);
    let b = pc(19999, 19997, 19995, 19993, 1);
    assert_eq!(
        compare_perf_counters(&a, &b),
        "cycles: 0.00% branches: 0.02% missed_branches: 0.02% instructions: 0.04%"
    );
    let c = pc(400, 10000, 1, 1, 1);
    let d = pc(399, 9999, 1, 1, 1);
    assert_eq!(
        compare_perf_counters(&c, &d),
        "cycles: 0.25% branches: 0.01% missed_branches: 0.00% instructions: 0.00%"
    );
}

#[test]
fn compare_small_negative_keeps_sign() {
    let a = pc(100000, 1, 1, 1, 1);
    let b = pc(100001, 1, 1, 1, 1);
    assert_eq!(
        compare_perf_counters(&a, &b),
        "cycles: -0.00% branches: 0.00% missed_branches: 0.00% instructions: 0.00%"
    );
}

#[test]
fn compare_zero_baseline() {
    let a = pc(0, 0, 0, 5, 1);
    let b = pc(4, -4, 0, 5, 1);
    assert_eq!(
        compare_perf_counters(&a, &b),
        "cycles: -inf% branches: inf% missed_branches: NaN% instructions: 0.00%"
    );
}

#[test]
fn compare_across_iterations() {
    // a = 1/2, b = 1/4: (1/2 - 1/4) / (1/2) = 50%
    let a = pc(1, 123, 1, 1, 2);
    let b = pc(1, 1230, 2, 1, 4);
    assert_eq!(
        compare_perf_counters(&a, &b),
        "cycles: 50.00% branches: -400.00% missed_branches: 0.00% instructions: 50.00%"
    );
}

#[test]
fn timed_average_exact_value() {
    let start = Ok(pc(100, 10, 1, 50, 1));
    let end = Ok(pc(1100, 110, 11, 550, 1));
    let avg = timed_average(start, end, 10).unwrap();
    assert!(avg.same_values(&pc(100, 10, 1, 50, 1)));
}

#[test]
fn timed_average_first_error_wins() {
    let e1: Result<PerformanceCounters, ASilPerfError> = Err(ASilPerfError::NotInitialized);
    let e2: Result<PerformanceCounters, ASilPerfError> = Err(ASilPerfError::PermissionDenied);
    assert_eq!(timed_average(e1, e2, 2), Err(ASilPerfError::NotInitialized));
    assert_eq!(timed_average(Ok(pc(1, 1, 1, 1, 1)), e2, 2), Err(ASilPerfError::PermissionDenied));
}
