use std::cell::Cell;
use vello_bench::result::{PlatformInfo, Statistics, TimeUnit};
use vello_bench::runner::{iteration_budget_for, BenchRunner, Timer};

struct FakeClock {
    now: Cell<u64>,
}

impl Timer for FakeClock {
    type Instant = u64;

    fn now(&self) -> u64 {
        self.now.get()
    }

    fn elapsed_ns(&self, start: &u64) -> u64 {
        self.now.get() - *start
    }

    fn timestamp_ms(&self) -> u64 {
        self.now.get() / 1_000_000
    }
}

fn platform() -> PlatformInfo {
    PlatformInfo {
        arch: "x86_64".to_string(),
        os: "linux".to_string(),
        simd_features: vec!["avx2".to_string(), "sse4.2".to_string()],
    }
}

#[test]
fn budget_is_rounded_up() {
    assert_eq!(iteration_budget_for(1024, 1_500_000_000, 4000), 2731);
    assert_eq!(iteration_budget_for(2, 2_000_000, 1), 1);
    assert_eq!(iteration_budget_for(3, 2_000_000, 1), 2);
}

#[test]
fn budget_is_at_least_one() {
    assert_eq!(iteration_budget_for(1, 5_000_000_000, 0), 1);
    assert_eq!(iteration_budget_for(1, u64::MAX, 100), 1);
}

#[test]
fn budget_treats_empty_window_as_one_nanosecond() {
    assert_eq!(iteration_budget_for(4, 0, 100), 400_000_000);
}

#[test]
fn budget_saturates() {
    assert_eq!(iteration_budget_for(1 << 62, 1, 4000), u64::MAX);
}

#[test]
fn default_timing_windows() {
    let r = BenchRunner::default_timing(platform());
    assert_eq!((r.calibration_ms, r.measurement_ms), (1500, 4000));
    let r = BenchRunner::new(200, 300, platform());
    assert_eq!((r.calibration_ms, r.measurement_ms), (200, 300));
}

#[test]
fn fixed_cost_closure_is_measured_exactly() {
    for k in [10_000u64, 123_457, 2_000_000] {
        let clock = FakeClock { now: Cell::new(0) };
        let runner = BenchRunner::default_timing(platform());
        let r = runner.run_with_timer(&clock, "fine/fill/opaque_short", "fine/fill", "opaque_short", "avx2", || {
            clock.now.set(clock.now.get() + k);
        }, || {});
        let s = r.statistics;
        assert!(s.iterations >= 1);
        let mean = s.total_ns as f64 / s.iterations as f64;
        assert!((mean - k as f64).abs() / (k as f64) < 0.1);
        assert_eq!(s.total_ns, s.iterations * k);
    }
}

#[test]
fn fake_clock_calibration_and_budget() {
    let clock = FakeClock { now: Cell::new(0) };
    let runner = BenchRunner::new(100, 400, platform());
    let calls = Cell::new(0u64);
    let r = runner.run_with_timer(&clock, "x/y", "x", "y", "scalar", || {
        clock.now.set(clock.now.get() + 1_000_000);
        calls.set(calls.get() + 1);
    }, || {});
    // Batches 1, 2, ..., 128 run before one reaches 100 ms; 400 iterations follow.
    assert_eq!(r.statistics.iterations, 400);
    assert_eq!(r.statistics.total_ns, 400_000_000);
    assert_eq!(calls.get(), 255 + 400);
}

#[test]
fn callback_runs_between_calibration_and_measurement() {
    let clock = FakeClock { now: Cell::new(0) };
    let runner = BenchRunner::new(100, 100, platform());
    let calls = Cell::new(0u64);
    let seen = Cell::new(u64::MAX);
    let r = runner.run_with_timer(&clock, "a/b", "a", "b", "sse42", || {
        clock.now.set(clock.now.get() + 1_000_000);
        calls.set(calls.get() + 1);
    }, || seen.set(calls.get()));
    assert_eq!(seen.get(), 255);
    assert_eq!(calls.get(), 255 + r.statistics.iterations);
}

#[test]
fn result_is_labelled() {
    let clock = FakeClock { now: Cell::new(0) };
    let runner = BenchRunner::new(100, 100, platform());
    let r = runner.run_with_timer(&clock, "fine/pack/block", "fine/pack", "block", "neon", || {
        clock.now.set(clock.now.get() + 50_000_000);
    }, || {});
    assert_eq!(r.id, "fine/pack/block");
    assert_eq!(r.category, "fine/pack");
    assert_eq!(r.name, "block");
    assert_eq!(r.simd_variant, "neon");
    assert_eq!(r.platform.arch, "x86_64");
    assert_eq!(r.platform.simd_features, vec!["avx2".to_string(), "sse4.2".to_string()]);
    assert_eq!(r.timestamp_ms, clock.now.get() / 1_000_000);
}

#[test]
fn zero_cost_closure_still_counts_one_iteration() {
    let clock = FakeClock { now: Cell::new(0) };
    let runner = BenchRunner::new(0, 0, platform());
    let r = runner.run_with_timer(&clock, "a/b", "a", "b", "scalar", || {}, || {});
    assert_eq!(r.statistics.iterations, 1);
    assert_eq!(r.statistics.total_ns, 0);
}

#[test]
fn cheap_closure_on_host_clock() {
    let runner = BenchRunner::new(200, 200, platform());
    let mut x = 0u64;
    let r = runner.run("fine/fill/opaque_short", "fine/fill", "opaque_short", "avx2", || {
        x = std::hint::black_box(x.wrapping_add(1));
    });
    assert_eq!(r.simd_variant, "avx2");
    assert!(r.statistics.iterations >= 1000);
    assert!((r.statistics.total_ns / r.statistics.iterations) < 10_000);
}

#[test]
fn busy_wait_closure_on_host_clock_default_config() {
    let k: u64 = 100_000;
    let runner = BenchRunner::default_timing(platform());
    let r = runner.run("x/spin", "x", "spin", "scalar", || {
        let start = std::time::Instant::now();
        while (start.elapsed().as_nanos() as u64) < k {}
    });
    let mean = r.statistics.total_ns as f64 / r.statistics.iterations as f64;
    assert!((mean - k as f64).abs() / (k as f64) < 0.1);
}

#[test]
fn repeated_runs_have_increasing_timestamps() {
    let runner = BenchRunner::new(100, 100, platform());
    let mut x = 0u64;
    let a = runner.run("a/b", "a", "b", "scalar", || x = std::hint::black_box(x.wrapping_add(1)));
    let b = runner.run("a/b", "a", "b", "scalar", || x = std::hint::black_box(x.wrapping_add(1)));
    assert!(b.timestamp_ms > a.timestamp_ms);
}

#[test]
fn display_units() {
    let unit = |total: u64, iters: u64| Statistics::from_measurement(total, iters).display_unit();
    assert_eq!(unit(999, 1), TimeUnit::Nanos);
    assert_eq!(unit(1_000, 1), TimeUnit::Micros);
    assert_eq!(unit(1_999_999, 2), TimeUnit::Micros);
    assert_eq!(unit(2_000_000, 2), TimeUnit::Millis);
    assert_eq!(unit(3_000_000_000, 3), TimeUnit::Seconds);
    assert_eq!(TimeUnit::Micros.label(), "\u{b5}s");
    assert_eq!(TimeUnit::Millis.nanos(), 1_000_000);
    assert_eq!(Statistics::from_measurement(10, 3).mean_ns_floor(), 3);
}
