use std::cell::Cell;

use macos_perf::{get_counters, init, timeit_loops, CounterReading, PerfContext, PerformanceCounters};

/// A counter unit whose counts grow with the work done through it.
struct SimulatedUnit {
    elapsed: Cell<u64>,
}

impl SimulatedUnit {
    fn new() -> Self {
        SimulatedUnit { elapsed: Cell::new(0) }
    }

    fn read(&self) -> (i32, CounterReading) {
        let t = self.elapsed.get();
        (0, CounterReading { cycles: 7 * t + 3, branches: 2 * t + 1, missed_branches: t + 1, instructions: 5 * t + 2 })
    }

    fn step(&self) {
        self.elapsed.set(self.elapsed.get() + 1);
    }
}

fn xor_fold(n: u64) -> u64 {
    (0..n).fold(0, |a, b| a ^ b)
}

/// Test the timed loop.
#[test]
fn test_timeit_loops_macro() {
    let unit = SimulatedUnit::new();
    let mut ctx = PerfContext::new();
    assert!(init(&mut ctx, || 0).is_ok());

    let pc: PerformanceCounters = timeit_loops(&ctx, 1000, || unit.read(), || {
        // Do some random work.
        let n = std::hint::black_box(1000);
        let x = xor_fold(n);
        assert_eq!(x, 0);
        unit.step();
    })
    .unwrap();

    // Check that the counters are monotonic.
    assert!(pc.cycles > 0);
    assert!(pc.branches > 0);
    assert!(pc.missed_branches > 0);
    assert!(pc.instructions > 0);
    assert_eq!(pc.iterations, 1000);
    let per_iteration = PerformanceCounters { cycles: 7, branches: 2, missed_branches: 1, instructions: 5, iterations: 1 };
    assert!(pc.same_values(&per_iteration));
}

#[test]
fn test_counters_are_monotonic() {
    let unit = SimulatedUnit::new();
    let mut ctx = PerfContext::new();
    init(&mut ctx, || 0).unwrap();

    let start = get_counters(&ctx, || unit.read()).unwrap();

    // Do some random work.
    let n = std::hint::black_box(1000);
    let x = xor_fold(n);
    assert_eq!(x, 0);
    unit.step();

    let end = get_counters(&ctx, || unit.read()).unwrap();
    assert!(end.cycles > start.cycles);
    assert!(end.branches > start.branches);
    assert!(end.missed_branches > start.missed_branches);
    assert!(end.instructions > start.instructions);
}
