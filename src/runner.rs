//! The timing engine: calibrate a batch size, derive an iteration budget,
//! then time one measurement window.

use vstd::prelude::*;
use vstd::arithmetic::power2::{pow2, lemma2_to64, lemma_pow2_unfold};
use std::time::{Duration, Instant, SystemTime};
use crate::result::{BenchmarkResult, PlatformInfo, Statistics};

verus! {

#[verifier::external_type_specification]
#[verifier::external_body]
pub struct ExInstant(Instant);

#[verifier::external_type_specification]
#[verifier::external_body]
pub struct ExSystemTime(SystemTime);

/// Relies on std::time::Instant::now: a reading of the monotonic clock.
#[verifier::external_body]
fn monotonic_now() -> Instant {
    Instant::now()
}

/// Relies on std::time::Instant::elapsed: the time since `start`, zero where
/// the clock went backwards.
#[verifier::external_body]
fn time_since(start: &Instant) -> Duration {
    start.elapsed()
}

/// Relies on std::time::Duration::as_nanos: the whole nanoseconds of `d`,
/// cut to 64 bits (exact below 584 years).
#[verifier::external_body]
fn whole_nanos(d: &Duration) -> u64 {
    d.as_nanos() as u64
}

/// Relies on std::time::SystemTime::now: a reading of the wall clock.
#[verifier::external_body]
fn wall_clock_now() -> SystemTime {
    SystemTime::now()
}

/// Relies on std::time::SystemTime::duration_since: the time since the Unix
/// epoch, absent where the wall clock reads earlier than the epoch.
#[verifier::external_body]
fn since_unix_epoch(t: &SystemTime) -> Option<Duration> {
    t.duration_since(SystemTime::UNIX_EPOCH).ok()
}

/// Relies on std::time::Duration::as_millis: the whole milliseconds of `d`,
/// cut to 64 bits.
#[verifier::external_body]
fn whole_millis(d: &Duration) -> u64 {
    d.as_millis() as u64
}

/// A clock for measuring intervals, plus a wall-clock timestamp for labels.
pub trait Timer {
    /// A captured tick.
    type Instant;

    /// Captures a tick.
    fn now(&self) -> Self::Instant;

    /// Nanoseconds from `start` to now; a backward jump reads as zero.
    fn elapsed_ns(&self, start: &Self::Instant) -> u64;

    /// Wall-clock milliseconds since the epoch.
    fn timestamp_ms(&self) -> u64;
}

/// The host's monotonic clock and wall clock.
pub struct NativeTimer;

impl Timer for NativeTimer {
    type Instant = Instant;

    fn now(&self) -> Instant {
        monotonic_now()
    }

    fn elapsed_ns(&self, start: &Instant) -> u64 {
        let d = time_since(start);
        whole_nanos(&d)
    }

    fn timestamp_ms(&self) -> u64 {
        match since_unix_epoch(&wall_clock_now()) {
            Some(d) => whole_millis(&d),
            None => 0,
        }
    }
}

/// A workload that may be called in any state it reaches.
pub open spec fn always_callable<F: FnMut()>() -> bool {
    forall|g: F| #[trigger] call_requires(g, ())
}

/// Nanoseconds a calibration window must reach.
pub open spec fn calibration_target_ns(calibration_ms: nat) -> nat {
    calibration_ms * 1_000_000
}

/// `a / b` rounded up.
pub open spec fn ceil_div(a: nat, b: nat) -> nat
    recommends
        b > 0,
{
    if a % b == 0 {
        a / b
    } else {
        a / b + 1
    }
}

/// How many iterations fill `measurement_ms` when `batch` iterations took
/// `batch_ns`: `ceil(batch / batch_ns * measurement_ms * 10^6)`, a zero
/// window counted as one nanosecond, and the count kept between 1 and
/// `u64::MAX`.
pub open spec fn iteration_budget(batch: nat, batch_ns: nat, measurement_ms: nat) -> nat {
    let t: nat = if batch_ns == 0 { 1 } else { batch_ns };
    let n = ceil_div(batch * (measurement_ms * 1_000_000), t);
    if n == 0 {
        1
    } else if n > u64::MAX {
        u64::MAX as nat
    } else {
        n
    }
}

/// A calibration outcome: a power-of-two batch whose window reached the
/// target, or the largest batch that can still be counted.
pub open spec fn calibrated(batch: nat, batch_ns: nat, target_ns: nat) -> bool {
    &&& batch >= 1
    &&& exists|k: nat| batch == pow2(k)
    &&& (batch_ns >= target_ns || batch > u64::MAX / 2)
}

/// The iteration budget for a calibrated batch; see `iteration_budget`.
pub fn iteration_budget_for(batch: u64, batch_ns: u64, measurement_ms: u64) -> (n: u64)
    ensures
        n == iteration_budget(batch as nat, batch_ns as nat, measurement_ms as nat),
        n >= 1,
{
    let t: u128 = if batch_ns == 0 { 1 } else { batch_ns as u128 };
    let m: u128 = measurement_ms as u128 * 1_000_000;
    match (batch as u128).checked_mul(m) {
        None => {
            proof {
                let p: int = batch as int * m as int;
                assert(p / (t as int) > u64::MAX) by (nonlinear_arith)
                    requires
                        p > u128::MAX,
                        1 <= t <= u64::MAX,
                ;
            }
            u64::MAX
        },
        Some(p) => {
            let n: u128 = if p % t == 0 {
                p / t
            } else {
                assert(p / t < u128::MAX) by (nonlinear_arith)
                    requires
                        p % t != 0,
                        1 <= t,
                        p <= u128::MAX,
                ;
                p / t + 1
            };
            if n == 0 {
                1
            } else if n > u64::MAX as u128 {
                u64::MAX
            } else {
                n as u64
            }
        },
    }
}

/// Whether calibration stops after a batch of `batch` iterations read
/// `elapsed_ns`: the window reached the target, or the batch cannot double.
pub open spec fn calibration_stops(batch: nat, elapsed_ns: nat, target_ns: nat) -> bool {
    elapsed_ns >= target_ns || batch > u64::MAX / 2
}

/// Doubles the batch, starting from one, until one batch takes at least
/// `target_ns`. Besides the outcome it hands back the reading of every
/// batch it timed, in order: batch `i` had `2^i` iterations, every reading
/// but the last stayed below the target (so calibration stops at the first
/// batch that reaches it), and the last is the outcome's.
fn calibrate<T: Timer, F: FnMut()>(
    timer: &T,
    f: &mut F,
    target_ns: u128,
) -> (r: (u64, u64, Ghost<Seq<nat>>))
    requires
        always_callable::<F>(),
    ensures
        calibrated(r.0 as nat, r.1 as nat, target_ns as nat),
        r.0 as nat == pow2((r.2@.len() - 1) as nat),
        r.2@.len() >= 1,
        r.2@.last() == r.1 as nat,
        forall|i: int| 0 <= i < r.2@.len() - 1 ==> !calibration_stops(pow2(i as nat), #[trigger] r.2@[i], target_ns as nat),
        calibration_stops(r.0 as nat, r.1 as nat, target_ns as nat),
{
    let mut batch: u64 = 1;
    let ghost mut readings: Seq<nat> = Seq::empty();
    proof {
        lemma2_to64();
        assert(batch == pow2(0));
    }
    loop
        invariant
            always_callable::<F>(),
            batch >= 1,
            batch as nat == pow2(readings.len()),
            forall|i: int| 0 <= i < readings.len() ==> !calibration_stops(pow2(i as nat), #[trigger] readings[i], target_ns as nat),
        decreases u64::MAX - batch,
    {
        let start = timer.now();
        let mut i: u64 = 0;
        while i < batch
            invariant
                always_callable::<F>(),
            decreases batch - i,
        {
            f();
            i = i + 1;
        }
        let elapsed = timer.elapsed_ns(&start);
        let ghost before = readings;
        proof {
            readings = readings.push(elapsed as nat);
        }
        if elapsed as u128 >= target_ns || batch > u64::MAX / 2 {
            proof {
                assert forall|i: int| 0 <= i < readings.len() - 1
                    implies !calibration_stops(pow2(i as nat), #[trigger] readings[i], target_ns as nat) by {
                    assert(readings[i] == before[i]);
                }
            }
            return (batch, elapsed, Ghost(readings));
        }
        proof {
            lemma_pow2_unfold(readings.len());
            assert forall|i: int| 0 <= i < readings.len()
                implies !calibration_stops(pow2(i as nat), #[trigger] readings[i], target_ns as nat) by {
                if i < before.len() {
                    assert(readings[i] == before[i]);
                }
            }
        }
        batch = batch * 2;
    }
}

/// Runs `f` exactly `iterations` times inside one timed window.
fn measure<T: Timer, F: FnMut()>(timer: &T, f: &mut F, iterations: u64) -> (r: Statistics)
    requires
        always_callable::<F>(),
        iterations >= 1,
    ensures
        r.iterations == iterations,
{
    let start = timer.now();
    let mut i: u64 = 0;
    while i < iterations
        invariant
            always_callable::<F>(),
        decreases iterations - i,
    {
        f();
        i = i + 1;
    }
    let elapsed = timer.elapsed_ns(&start);
    Statistics::from_measurement(elapsed, iterations)
}

/// The statistics a calibrated run owes: its iteration count is the budget
/// of some calibration outcome, and is at least one.
pub open spec fn measured_with(s: Statistics, calibration_ms: nat, measurement_ms: nat) -> bool {
    &&& s.iterations >= 1
    &&& exists|b: nat, t: nat|
        calibrated(b, t, calibration_target_ns(calibration_ms))
            && s.iterations == iteration_budget(b, t, measurement_ms)
}

/// A result labelled with the given identifiers, measured with the runner's
/// windows, and tagged with the runner's host.
pub open spec fn labelled_result(
    r: BenchmarkResult,
    runner: BenchRunner,
    id: Seq<char>,
    category: Seq<char>,
    name: Seq<char>,
    simd_variant: Seq<char>,
) -> bool {
    &&& r.id@ == id
    &&& r.category@ == category
    &&& r.name@ == name
    &&& r.simd_variant@ == simd_variant
    &&& measured_with(r.statistics, runner.calibration_ms as nat, runner.measurement_ms as nat)
    &&& r.platform@ == runner.platform@
}

/// Timing configuration, and the host the results are tagged with.
#[derive(Clone, Debug)]
pub struct BenchRunner {
    /// Length of the calibration window in milliseconds.
    pub calibration_ms: u64,
    /// Length of the measurement window in milliseconds.
    pub measurement_ms: u64,
    /// The host every result is tagged with.
    pub platform: PlatformInfo,
}

/// Default calibration window in milliseconds.
pub const DEFAULT_CALIBRATION_MS: u64 = 1500;

/// Default measurement window in milliseconds.
pub const DEFAULT_MEASUREMENT_MS: u64 = 4000;

impl BenchRunner {
    /// A runner with the given windows.
    pub fn new(calibration_ms: u64, measurement_ms: u64, platform: PlatformInfo) -> (r: BenchRunner)
        ensures
            r.calibration_ms == calibration_ms,
            r.measurement_ms == measurement_ms,
            r.platform == platform,
    {
        BenchRunner { calibration_ms, measurement_ms, platform }
    }

    /// The runner with the default windows for `platform`.
    pub open spec fn default_spec(platform: PlatformInfo) -> BenchRunner {
        BenchRunner {
            calibration_ms: DEFAULT_CALIBRATION_MS,
            measurement_ms: DEFAULT_MEASUREMENT_MS,
            platform,
        }
    }

    /// A runner with the default windows: 1500 ms of calibration, 4000 ms of
    /// measurement.
    pub fn default_timing(platform: PlatformInfo) -> (r: BenchRunner)
        ensures
            r == Self::default_spec(platform),
            r.calibration_ms == DEFAULT_CALIBRATION_MS,
            r.measurement_ms == DEFAULT_MEASUREMENT_MS,
    {
        BenchRunner {
            calibration_ms: DEFAULT_CALIBRATION_MS,
            measurement_ms: DEFAULT_MEASUREMENT_MS,
            platform,
        }
    }

    /// Calibrates, calls `on_calibrated`, then measures, all on `timer`, and
    /// labels the outcome with the given identifiers.
    pub fn run_with_timer<T: Timer, F: FnMut(), C: FnOnce()>(
        &self,
        timer: &T,
        id: &str,
        category: &str,
        name: &str,
        simd_variant: &str,
        f: F,
        on_calibrated: C,
    ) -> (r: BenchmarkResult)
        requires
            always_callable::<F>(),
            call_requires(on_calibrated, ()),
        ensures
            labelled_result(r, *self, id@, category@, name@, simd_variant@),
    {
        let mut f = f;
        let target: u128 = self.calibration_ms as u128 * 1_000_000;
        let (batch, batch_ns, _readings) = calibrate(timer, &mut f, target);
        on_calibrated();
        let iterations = iteration_budget_for(batch, batch_ns, self.measurement_ms);
        let statistics = measure(timer, &mut f, iterations);
        BenchmarkResult {
            id: id.to_string(),
            category: category.to_string(),
            name: name.to_string(),
            simd_variant: simd_variant.to_string(),
            statistics,
            timestamp_ms: timer.timestamp_ms(),
            platform: self.platform.duplicate(),
        }
    }

    /// Runs `f` on the host clock; see `run_with_timer`.
    pub fn run<F: FnMut()>(
        &self,
        id: &str,
        category: &str,
        name: &str,
        simd_variant: &str,
        f: F,
    ) -> (r: BenchmarkResult)
        requires
            always_callable::<F>(),
        ensures
            labelled_result(r, *self, id@, category@, name@, simd_variant@),
    {
        self.run_with_timer(&NativeTimer, id, category, name, simd_variant, f, || {})
    }

    /// Runs `f` on the host clock, calling `on_calibrated` between
    /// calibration and measurement; see `run_with_timer`.
    pub fn run_with_callback<F: FnMut(), C: FnOnce()>(
        &self,
        id: &str,
        category: &str,
        name: &str,
        simd_variant: &str,
        f: F,
        on_calibrated: C,
    ) -> (r: BenchmarkResult)
        requires
            always_callable::<F>(),
            call_requires(on_calibrated, ()),
        ensures
            labelled_result(r, *self, id@, category@, name@, simd_variant@),
    {
        self.run_with_timer(&NativeTimer, id, category, name, simd_variant, f, on_calibrated)
    }
}

} // verus!
