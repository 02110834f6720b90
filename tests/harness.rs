use std::cell::Cell;
use vello_bench::bencher::{run_bench, Bencher};
use vello_bench::catalogue::get_benchmark_list;
use vello_bench::dispatch::{run_benchmark_by_id, WorkloadFactory};
use vello_bench::result::PlatformInfo;
use vello_bench::runner::{BenchRunner, Timer};
use vello_bench::simd::{HostFeatures, SimdLevel};
use vello_bench::workload::Workload;

struct FakeClock {
    now: Cell<u64>,
}

impl Timer for FakeClock {
    type Instant = u64;

    fn now(&self) -> u64 {
        self.now.get()
    }

    fn elapsed_ns(&self, start: &u64) -> u64 {
        self.now.get() - *start
    }

    fn timestamp_ms(&self) -> u64 {
        0
    }
}

fn platform() -> PlatformInfo {
    PlatformInfo { arch: "x86_64".to_string(), os: "linux".to_string(), simd_features: vec![] }
}

#[test]
fn bencher_collects_samples_for_the_sampling_window() {
    let clock = FakeClock { now: Cell::new(0) };
    let mut b = Bencher::new("fine/pack/block");
    b.bench_with_timer(&clock, || clock.now.set(clock.now.get() + 100_000_000));
    assert_eq!(b.name(), "fine/pack/block");
    assert_eq!(b.samples().len(), 30);
    assert!(b.samples().iter().all(|s| *s == 100_000_000));
}

#[test]
fn new_bencher_is_empty() {
    let b = Bencher::new("x");
    assert!(b.samples().is_empty());
}

#[test]
fn run_bench_labels_by_path() {
    let mut x = 0u32;
    let r = run_bench("fine/fill/opaque_short_u8_avx2", || x = std::hint::black_box(x + 1), platform());
    assert_eq!(r.id, "fine/fill/opaque_short_u8_avx2");
    assert_eq!(r.category, "fine/fill");
    assert_eq!(r.name, "opaque_short");
    assert_eq!(r.simd_variant, "u8_avx2");
    assert!(r.statistics.iterations >= 1);
}

struct NoWork;

impl WorkloadFactory for NoWork {
    type Work = Box<dyn FnMut()>;

    fn prepare(&self, _workload: &Workload, _level: SimdLevel) -> Box<dyn FnMut()> {
        Box::new(|| {})
    }
}

#[test]
fn every_listed_benchmark_runs_with_its_labels() {
    let host = HostFeatures { avx2: true, fma: true, sse42: true, neon: false, simd128: false, any_level_selectable: true };
    let best = SimdLevel::best(host);
    let assets = vec!["tiger".to_string()];
    let runner = BenchRunner::new(0, 0, platform());
    for b in get_benchmark_list(&assets) {
        let r = run_benchmark_by_id(&runner, &b.id, best, host, &assets, &NoWork).unwrap();
        assert_eq!(r.id, b.id);
        assert_eq!(r.category, b.category);
        assert_eq!(r.name, b.name);
        assert_eq!(r.simd_variant, best.suffix());
        assert!(r.statistics.iterations >= 1);
    }
}

#[test]
fn unknown_benchmark_gives_none() {
    let runner = BenchRunner::new(0, 0, platform());
    let r = run_benchmark_by_id(&runner, "does/not/exist", SimdLevel::Scalar, x86_host(), &Vec::new(), &NoWork);
    assert!(r.is_none());
}

fn x86_host() -> HostFeatures {
    HostFeatures { avx2: true, fma: true, sse42: true, neon: false, simd128: false, any_level_selectable: true }
}

struct Recording {
    levels: std::cell::RefCell<Vec<SimdLevel>>,
}

impl WorkloadFactory for Recording {
    type Work = Box<dyn FnMut()>;

    fn prepare(&self, _workload: &Workload, level: SimdLevel) -> Box<dyn FnMut()> {
        self.levels.borrow_mut().push(level);
        Box::new(|| {})
    }
}

#[test]
fn missing_level_runs_and_is_labelled_as_the_best() {
    let runner = BenchRunner::new(0, 0, platform());
    let factory = Recording { levels: std::cell::RefCell::new(Vec::new()) };
    let r = run_benchmark_by_id(&runner, "fine/fill/opaque_short", SimdLevel::Neon, x86_host(), &Vec::new(), &factory).unwrap();
    assert_eq!(r.simd_variant, "avx2");
    assert_eq!(*factory.levels.borrow(), vec![SimdLevel::Avx2]);
}

#[test]
fn offered_level_runs_as_asked() {
    let runner = BenchRunner::new(0, 0, platform());
    let factory = Recording { levels: std::cell::RefCell::new(Vec::new()) };
    let r = run_benchmark_by_id(&runner, "fine/pack/block", SimdLevel::Sse42, x86_host(), &Vec::new(), &factory).unwrap();
    assert_eq!(r.simd_variant, "sse42");
    assert_eq!(*factory.levels.borrow(), vec![SimdLevel::Sse42]);
}

#[test]
fn used_level_falls_back_to_best() {
    let h = x86_host();
    assert_eq!(SimdLevel::Neon.used_on(h), SimdLevel::Avx2);
    assert_eq!(SimdLevel::WasmSimd128.used_on(h), SimdLevel::Avx2);
    assert_eq!(SimdLevel::Sse42.used_on(h), SimdLevel::Sse42);
    assert_eq!(SimdLevel::Scalar.used_on(h), SimdLevel::Scalar);
}

#[test]
fn bencher_keeps_one_sample_even_for_a_slow_call() {
    let clock = FakeClock { now: Cell::new(0) };
    let mut b = Bencher::new("slow");
    b.bench_with_timer(&clock, || clock.now.set(clock.now.get() + 5_000_000_000));
    assert_eq!(b.samples().len(), 1);
    assert_eq!(b.samples()[0], 5_000_000_000);
}
