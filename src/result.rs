//! The records a benchmark run produces.

use vstd::prelude::*;

verus! {

/// What one measurement window observed.
#[derive(Clone, Copy, Debug, PartialEq, Eq, Structural)]
pub struct Statistics {
    /// Nanoseconds the whole measurement window took.
    pub total_ns: u64,
    /// How many times the workload ran inside the window.
    pub iterations: u64,
}

impl Statistics {
    /// Statistics of a window of `total_ns` nanoseconds over `iterations` runs.
    pub fn from_measurement(total_ns: u64, iterations: u64) -> (r: Statistics)
        requires
            iterations >= 1,
        ensures
            r.total_ns == total_ns,
            r.iterations == iterations,
    {
        Statistics { total_ns, iterations }
    }

    /// The unit the mean cost is shown in; the thresholds are whole
    /// nanoseconds, so the mean rounded down picks the same unit.
    pub fn display_unit(&self) -> (r: TimeUnit)
        requires
            self.iterations >= 1,
        ensures
            r == unit_for(self.total_ns as int / self.iterations as int),
    {
        let mean = self.total_ns / self.iterations;
        if mean >= 1_000_000_000 {
            TimeUnit::Seconds
        } else if mean >= 1_000_000 {
            TimeUnit::Millis
        } else if mean >= 1_000 {
            TimeUnit::Micros
        } else {
            TimeUnit::Nanos
        }
    }

    /// The mean cost of one run, rounded down to whole nanoseconds.
    pub fn mean_ns_floor(&self) -> (r: u64)
        requires
            self.iterations >= 1,
        ensures
            r == self.total_ns / self.iterations,
    {
        self.total_ns / self.iterations
    }
}

/// A unit for showing a duration.
#[derive(Clone, Copy, Debug, PartialEq, Eq, Structural)]
pub enum TimeUnit {
    Nanos,
    Micros,
    Millis,
    Seconds,
}

/// The unit a mean of `mean_ns` nanoseconds is shown in: ns below 10^3,
/// then µs below 10^6, ms below 10^9, and s from there on.
pub open spec fn unit_for(mean_ns: int) -> TimeUnit {
    if mean_ns >= 1_000_000_000 {
        TimeUnit::Seconds
    } else if mean_ns >= 1_000_000 {
        TimeUnit::Millis
    } else if mean_ns >= 1_000 {
        TimeUnit::Micros
    } else {
        TimeUnit::Nanos
    }
}

impl TimeUnit {
    /// Nanoseconds in one of this unit.
    pub open spec fn spec_nanos(self) -> u64 {
        match self {
            TimeUnit::Nanos => 1,
            TimeUnit::Micros => 1_000,
            TimeUnit::Millis => 1_000_000,
            TimeUnit::Seconds => 1_000_000_000,
        }
    }

    /// Nanoseconds in one of this unit.
    pub fn nanos(&self) -> (r: u64)
        ensures
            r == self.spec_nanos(),
    {
        match self {
            TimeUnit::Nanos => 1,
            TimeUnit::Micros => 1_000,
            TimeUnit::Millis => 1_000_000,
            TimeUnit::Seconds => 1_000_000_000,
        }
    }

    /// The unit's label, two columns wide.
    pub open spec fn spec_label(self) -> Seq<char> {
        match self {
            TimeUnit::Nanos => "ns"@,
            TimeUnit::Micros => "\u{b5}s"@,
            TimeUnit::Millis => "ms"@,
            TimeUnit::Seconds => "s "@,
        }
    }

    /// The unit's label, two columns wide.
    pub fn label(&self) -> (r: &'static str)
        ensures
            r@ == self.spec_label(),
    {
        match self {
            TimeUnit::Nanos => "ns",
            TimeUnit::Micros => "\u{b5}s",
            TimeUnit::Millis => "ms",
            TimeUnit::Seconds => "s ",
        }
    }
}

/// The host a run happened on.
#[derive(Clone, Debug)]
pub struct PlatformInfo {
    /// Architecture, such as "x86_64" or "wasm32".
    pub arch: String,
    /// Operating system, such as "linux" or "browser".
    pub os: String,
    /// SIMD features found on the host, in detection order.
    pub simd_features: Vec<String>,
}

/// A host description as character sequences.
pub struct PlatformView {
    pub arch: Seq<char>,
    pub os: Seq<char>,
    pub simd_features: Seq<Seq<char>>,
}

impl View for PlatformInfo {
    type V = PlatformView;

    open spec fn view(&self) -> PlatformView {
        PlatformView {
            arch: self.arch@,
            os: self.os@,
            simd_features: self.simd_features@.map_values(|f: String| f@),
        }
    }
}

impl PlatformInfo {
    /// A field-by-field copy.
    pub fn duplicate(&self) -> (r: PlatformInfo)
        ensures
            r@ == self@,
    {
        let mut features: Vec<String> = Vec::new();
        let mut i: usize = 0;
        while i < self.simd_features.len()
            invariant
                i <= self.simd_features@.len(),
                features@.len() == i,
                forall|j: int| 0 <= j < i ==> #[trigger] features@[j]@ == self.simd_features@[j]@,
            decreases self.simd_features@.len() - i,
        {
            features.push(self.simd_features[i].clone());
            i = i + 1;
        }
        let r = PlatformInfo { arch: self.arch.clone(), os: self.os.clone(), simd_features: features };
        assert(r@.simd_features =~= self@.simd_features);
        r
    }
}

/// The outcome of running one benchmark at one SIMD level.
#[derive(Clone, Debug)]
pub struct BenchmarkResult {
    /// Full identifier, "{category}/{name}".
    pub id: String,
    /// Category path, such as "fine/fill".
    pub category: String,
    /// Name within the category.
    pub name: String,
    /// Suffix of the SIMD level that ran.
    pub simd_variant: String,
    /// What the measurement window observed.
    pub statistics: Statistics,
    /// Wall-clock milliseconds since the epoch when the run finished.
    pub timestamp_ms: u64,
    /// The host the run happened on.
    pub platform: PlatformInfo,
}

} // verus!
