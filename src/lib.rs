use vstd::prelude::*;

pub mod performance_counters;

pub use performance_counters::{compare_perf_counters, CounterReading, PerformanceCounters};

verus! {

#[derive(Clone, Copy, Debug, PartialEq, Eq, Structural)]
pub enum ASilPerfError {
    /// A read was attempted before `init` succeeded on this context.
    NotInitialized,
    /// The checked read reported a non-zero status after initialization.
    PermissionDenied,
    /// Programming the counter unit failed with this platform status.
    InitFailed(i32),
}

/// Measurement state of one execution context: whether its counter unit
/// has been programmed. It starts uninitialized and, once initialized,
/// stays so.
#[derive(Debug)]
pub struct PerfContext {
    initialized: bool,
}

/// What `init` returns, and whether the context is initialized after it,
/// when the backend's setup reported `status`.
pub open spec fn setup_outcome(initialized: bool, status: i32) -> (Result<(), ASilPerfError>, bool) {
    if status == 0 {
        (Ok(()), true)
    } else {
        (Err(ASilPerfError::InitFailed(status)), initialized)
    }
}

/// What a counter read returns when the checked read reported `status`
/// and filled in `reading`.
pub open spec fn read_outcome(initialized: bool, status: i32, reading: CounterReading) -> Result<
    PerformanceCounters,
    ASilPerfError,
> {
    if !initialized {
        Err(ASilPerfError::NotInitialized)
    } else if status != 0 {
        Err(ASilPerfError::PermissionDenied)
    } else {
        Ok(PerformanceCounters::from_reading(reading))
    }
}

/// `(end - start) / n` of two boundary reads; the first error wins.
pub open spec fn average_outcome(
    start: Result<PerformanceCounters, ASilPerfError>,
    end: Result<PerformanceCounters, ASilPerfError>,
    n: int,
) -> Result<PerformanceCounters, ASilPerfError> {
    match start {
        Err(e) => Err(e),
        Ok(s) => match end {
            Err(e) => Err(e),
            Ok(e) => Ok(PerformanceCounters::subtract_spec(e, s).divide_spec(n)),
        },
    }
}

/// The average of two boundary reads is representable without overflow.
pub open spec fn can_average(
    start: Result<PerformanceCounters, ASilPerfError>,
    end: Result<PerformanceCounters, ASilPerfError>,
    n: int,
) -> bool {
    match (start, end) {
        (Ok(s), Ok(e)) => PerformanceCounters::can_subtract(e, s)
            && PerformanceCounters::subtract_spec(e, s).iterations * n <= u64::MAX,
        _ => true,
    }
}

/// `r` is a possible result of one guarded read through `read_checked`:
/// no backend call at all when uninitialized.
pub open spec fn read_allowed<F: FnOnce() -> (i32, CounterReading)>(
    initialized: bool,
    read_checked: F,
    r: Result<PerformanceCounters, ASilPerfError>,
) -> bool {
    if !initialized {
        r == Err::<PerformanceCounters, ASilPerfError>(ASilPerfError::NotInitialized)
    } else {
        exists|o: (i32, CounterReading)|
            #[trigger] read_checked.ensures((), o) && r == read_outcome(true, o.0, o.1)
    }
}

impl PerfContext {
    pub closed spec fn is_initialized_spec(&self) -> bool {
        self.initialized
    }

    /// A fresh, uninitialized context.
    pub fn new() -> (r: Self)
        ensures
            !r.is_initialized_spec(),
    {
        PerfContext { initialized: false }
    }

    pub fn is_initialized(&self) -> (r: bool)
        ensures
            r == self.is_initialized_spec(),
    {
        self.initialized
    }

    /// Applies the status of the backend's setup call to this context.
    pub fn record_setup(&mut self, status: i32) -> (r: Result<(), ASilPerfError>)
        ensures
            (r, final(self).is_initialized_spec()) == setup_outcome(
                old(self).is_initialized_spec(),
                status,
            ),
    {
        if status != 0 {
            return Err(ASilPerfError::InitFailed(status));
        }
        self.initialized = true;
        Ok(())
    }

    /// The result of a read whose checked backend call reported `status`
    /// and filled in `reading`.
    pub fn read_result(&self, status: i32, reading: CounterReading) -> (r: Result<
        PerformanceCounters,
        ASilPerfError,
    >)
        ensures
            r == read_outcome(self.is_initialized_spec(), status, reading),
    {
        if !self.initialized {
            Err(ASilPerfError::NotInitialized)
        } else if status != 0 {
            Err(ASilPerfError::PermissionDenied)
        } else {
            Ok(PerformanceCounters::from(reading))
        }
    }
}

/// Programs the counter unit of `ctx` through `setup`, which returns the
/// platform status (zero on success), and marks `ctx` initialized on success.
pub fn init<F: FnOnce() -> i32>(ctx: &mut PerfContext, setup: F) -> (r: Result<(), ASilPerfError>)
    requires
        setup.requires(()),
    ensures
        exists|status: i32|
            #[trigger] setup.ensures((), status) && (r, final(ctx).is_initialized_spec())
                == setup_outcome(old(ctx).is_initialized_spec(), status),
{
    let status = setup();
    ctx.record_setup(status)
}

/// Reads the counters of `ctx` through `read_checked`, which returns the
/// platform status (zero on success) and the reading. Fails with
/// `NotInitialized`, without calling `read_checked`, before `init` succeeded.
pub fn get_counters<F: FnOnce() -> (i32, CounterReading)>(ctx: &PerfContext, read_checked: F) -> (r:
    Result<PerformanceCounters, ASilPerfError>)
    requires
        ctx.is_initialized_spec() ==> read_checked.requires(()),
    ensures
        read_allowed(ctx.is_initialized_spec(), read_checked, r),
{
    if !ctx.is_initialized() {
        return Err(ASilPerfError::NotInitialized);
    }
    let (status, reading) = read_checked();
    ctx.read_result(status, reading)
}

/// Combines the two boundary reads of a timed loop of `n` iterations into
/// the mean per-iteration delta; the start read's error takes precedence.
pub fn timed_average(
    start: Result<PerformanceCounters, ASilPerfError>,
    end: Result<PerformanceCounters, ASilPerfError>,
    n: usize,
) -> (r: Result<PerformanceCounters, ASilPerfError>)
    requires
        n >= 1,
        can_average(start, end, n as int),
    ensures
        r == average_outcome(start, end, n as int),
{
    match start {
        Err(e) => Err(e),
        Ok(s) => match end {
            Err(e) => Err(e),
            Ok(e) => Ok(PerformanceCounters::subtract(&e, &s).divide(n)),
        },
    }
}

/// A reading converted to a snapshot stays within the bounds that averaging
/// two of them needs.
proof fn lemma_readings_can_average(initialized: bool, s: i32, a: CounterReading, e: i32, b: CounterReading, n: int)
    requires
        1 <= n <= usize::MAX,
    ensures
        can_average(read_outcome(initialized, s, a), read_outcome(initialized, e, b), n),
{
    let x = PerformanceCounters::from_reading(a);
    let y = PerformanceCounters::from_reading(b);
    assert(PerformanceCounters::can_subtract(y, x));
    assert(PerformanceCounters::subtract_spec(y, x).iterations == 1);
    assert(n <= u64::MAX);
    if initialized && s == 0 && e == 0 {
        assert(read_outcome(initialized, s, a) == Ok::<PerformanceCounters, ASilPerfError>(x));
        assert(read_outcome(initialized, e, b) == Ok::<PerformanceCounters, ASilPerfError>(y));
        assert(PerformanceCounters::subtract_spec(y, x).iterations * n <= u64::MAX);
        assert(can_average(Ok(x), Ok(y), n));
    }
}

/// Runs `work` `n` times between two counter reads through `read_checked`
/// and returns the mean per-iteration delta `(end - start) / n`. A failed
/// start read is returned at once, before any work is done.
pub fn timeit_loops<R: Fn() -> (i32, CounterReading), W: Fn()>(
    ctx: &PerfContext,
    n: usize,
    read_checked: R,
    work: W,
) -> (r: Result<PerformanceCounters, ASilPerfError>)
    requires
        n >= 1,
        ctx.is_initialized_spec() ==> read_checked.requires(()),
        work.requires(()),
    ensures
        exists|start: Result<PerformanceCounters, ASilPerfError>, end: Result<PerformanceCounters, ASilPerfError>|
            read_allowed(ctx.is_initialized_spec(), read_checked, start)
                && read_allowed(ctx.is_initialized_spec(), read_checked, end)
                && #[trigger] average_outcome(start, end, n as int) == r,
{
    if !ctx.is_initialized() {
        proof {
            let ghost e = Err::<PerformanceCounters, ASilPerfError>(ASilPerfError::NotInitialized);
            assert(average_outcome(e, e, n as int) == e);
        }
        return Err(ASilPerfError::NotInitialized);
    }
    let (s_status, s_reading) = read_checked();
    let start = ctx.read_result(s_status, s_reading);
    if start.is_err() {
        proof {
            assert(read_allowed(true, read_checked, start));
            assert(average_outcome(start, start, n as int) == start);
        }
        return start;
    }
    let mut i: usize = 0;
    while i < n
        invariant
            i <= n,
            work.requires(()),
        decreases n - i,
    {
        work();
        i = i + 1;
    }
    let (e_status, e_reading) = read_checked();
    let end = ctx.read_result(e_status, e_reading);
    proof {
        lemma_readings_can_average(true, s_status, s_reading, e_status, e_reading, n as int);
        assert(read_allowed(true, read_checked, start));
        assert(read_allowed(true, read_checked, end));
    }
    timed_average(start, end, n)
}

/// After a successful `init`, a read either succeeds or fails with
/// `PermissionDenied`; it never fails with `NotInitialized`.
pub proof fn lemma_read_after_successful_init(
    initialized: bool,
    setup_status: i32,
    read_status: i32,
    reading: CounterReading,
)
    requires
        setup_outcome(initialized, setup_status).0 is Ok,
    ensures
        ({
            let r = read_outcome(setup_outcome(initialized, setup_status).1, read_status, reading);
            r is Ok || r == Err::<PerformanceCounters, ASilPerfError>(
                ASilPerfError::PermissionDenied,
            )
        }),
{
}

/// When the counters did not decrease between the two boundary reads, a
/// successful timed loop reports no negative field.
pub proof fn lemma_average_of_growing_counters_is_nonnegative(
    initialized: bool,
    start_status: i32,
    start: CounterReading,
    end_status: i32,
    end: CounterReading,
    n: int,
)
    requires
        n >= 1,
        start.cycles <= end.cycles,
        start.branches <= end.branches,
        start.missed_branches <= end.missed_branches,
        start.instructions <= end.instructions,
    ensures
        ({
            let r = average_outcome(
                read_outcome(initialized, start_status, start),
                read_outcome(initialized, end_status, end),
                n,
            );
            r is Ok ==> ({
                let v = r->Ok_0;
                v.cycles >= 0 && v.branches >= 0 && v.missed_branches >= 0 && v.instructions
                    >= 0
            })
        }),
{
}

} // verus!
