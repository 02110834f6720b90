//! A sampling harness: a warmup phase, then one timed sample per call for a
//! fixed duration.

use vstd::prelude::*;
use crate::registry::{BenchmarkMetadata, split_path, name_variant};
use crate::result::{BenchmarkResult, PlatformInfo};
use crate::runner::{BenchRunner, NativeTimer, Timer, always_callable, labelled_result};

verus! {

/// Length of the warmup phase in nanoseconds.
pub const WARMUP_NS: u64 = 1_000_000_000;

/// Length of the sampling phase in nanoseconds.
pub const SAMPLING_NS: u64 = 3_000_000_000;

/// A named benchmark and the samples of its last run, in nanoseconds.
pub struct Bencher {
    name: String,
    samples: Vec<u64>,
}

impl Bencher {
    /// The name given at creation.
    pub closed spec fn spec_name(&self) -> Seq<char> {
        self.name@
    }

    /// The samples of the last run, in nanoseconds.
    pub closed spec fn spec_samples(&self) -> Seq<u64> {
        self.samples@
    }

    /// A bencher with no samples yet.
    pub fn new(name: &str) -> (r: Bencher)
        ensures
            r.spec_name() == name@,
            r.spec_samples().len() == 0,
    {
        Bencher { name: name.to_string(), samples: Vec::new() }
    }

    /// The name given at creation.
    pub fn name(&self) -> (r: &str)
        ensures
            r@ == self.spec_name(),
    {
        self.name.as_str()
    }

    /// The samples of the last run, in nanoseconds.
    pub fn samples(&self) -> (r: &Vec<u64>)
        ensures
            r@ == self.spec_samples(),
    {
        &self.samples
    }

    /// Calls `f` through the warmup phase (at least once, until the phase's
    /// duration has passed), then drops the samples of any earlier run and
    /// times calls one by one (at least one, until the sampling duration has
    /// passed), keeping one sample per call.
    pub fn bench_with_timer<T: Timer, F: FnMut()>(&mut self, timer: &T, f: F)
        requires
            always_callable::<F>(),
        ensures
            final(self).spec_name() == old(self).spec_name(),
            final(self).spec_samples().len() >= 1,
    {
        let mut f = f;
        let warmup_start = timer.now();
        let mut runs: u64 = 0;
        loop
            invariant
                always_callable::<F>(),
            decreases u64::MAX - runs,
        {
            f();
            if runs == u64::MAX || timer.elapsed_ns(&warmup_start) >= WARMUP_NS {
                break;
            }
            runs = runs + 1;
        }
        self.samples.clear();
        let bench_start = timer.now();
        loop
            invariant
                always_callable::<F>(),
                self.name@ == old(self).name@,
            ensures
                self.name@ == old(self).name@,
                self.samples@.len() >= 1,
            decreases usize::MAX - self.samples@.len(),
        {
            let iter_start = timer.now();
            f();
            let sample = timer.elapsed_ns(&iter_start);
            if self.samples.len() == usize::MAX {
                break;
            }
            self.samples.push(sample);
            if timer.elapsed_ns(&bench_start) >= SAMPLING_NS {
                break;
            }
        }
    }

    /// `bench_with_timer` on the host clock.
    pub fn bench<F: FnMut()>(&mut self, f: F)
        requires
            always_callable::<F>(),
        ensures
            final(self).spec_name() == old(self).spec_name(),
            final(self).spec_samples().len() >= 1,
    {
        self.bench_with_timer(&NativeTimer, f)
    }
}

/// Runs a named benchmark with the default windows on the host clock,
/// labelling the result by reading the name as a path (see
/// `BenchmarkMetadata::from_path`).
pub fn run_bench<F: FnMut()>(name: &str, f: F, platform: PlatformInfo) -> (r: BenchmarkResult)
    requires
        always_callable::<F>(),
    ensures
        labelled_result(
            r,
            BenchRunner::default_spec(platform),
            name@,
            split_path(name@).0,
            name_variant(split_path(name@).1).0,
            name_variant(split_path(name@).1).1,
        ),
{
    let runner = BenchRunner::default_timing(platform);
    let meta = BenchmarkMetadata::from_path(name);
    runner.run(name, meta.category.as_str(), meta.name.as_str(), meta.simd_variant.as_str(), f)
}

} // verus!
