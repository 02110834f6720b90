//! The SIMD levels a kernel can be specialised for, which of them a host
//! offers, and their stable suffixes.

use vstd::prelude::*;
use crate::text::str_eq;

verus! {

/// A kernel variant of the rasterizer.
#[derive(Clone, Copy, Debug, PartialEq, Eq, Hash, Structural)]
pub enum SimdLevel {
    /// Scalar code, no SIMD.
    Scalar,
    /// x86-64 SSE4.2.
    Sse42,
    /// x86-64 AVX2 with FMA.
    Avx2,
    /// ARM NEON.
    Neon,
    /// WebAssembly SIMD128.
    WasmSimd128,
}

/// The capabilities of the host, detected once at start.
#[derive(Clone, Copy, Debug, PartialEq, Eq, Structural)]
pub struct HostFeatures {
    /// The AVX2 runtime feature is present.
    pub avx2: bool,
    /// The FMA runtime feature is present.
    pub fma: bool,
    /// The SSE4.2 runtime feature is present.
    pub sse42: bool,
    /// The NEON feature is present.
    pub neon: bool,
    /// The build targets WebAssembly with SIMD128 enabled.
    pub simd128: bool,
    /// The kernel library lets a caller select any detected level, not only
    /// the best one.
    pub any_level_selectable: bool,
}

/// The stable suffix of a level.
pub open spec fn suffix_of(l: SimdLevel) -> Seq<char> {
    match l {
        SimdLevel::Scalar => "scalar"@,
        SimdLevel::Sse42 => "sse42"@,
        SimdLevel::Avx2 => "avx2"@,
        SimdLevel::Neon => "neon"@,
        SimdLevel::WasmSimd128 => "wasm_simd128"@,
    }
}

/// The human-readable name of a level.
pub open spec fn display_name_of(l: SimdLevel) -> Seq<char> {
    match l {
        SimdLevel::Scalar => "Scalar"@,
        SimdLevel::Sse42 => "SSE4.2"@,
        SimdLevel::Avx2 => "AVX2"@,
        SimdLevel::Neon => "NEON"@,
        SimdLevel::WasmSimd128 => "WASM SIMD128"@,
    }
}

/// Whether the host offers a level.
pub open spec fn offers(h: HostFeatures, l: SimdLevel) -> bool {
    match l {
        SimdLevel::Scalar => true,
        SimdLevel::Sse42 => h.sse42,
        SimdLevel::Avx2 => h.avx2 && h.fma,
        SimdLevel::Neon => h.neon,
        SimdLevel::WasmSimd128 => h.simd128,
    }
}

/// The levels the host offers, fastest first, Scalar last.
pub open spec fn available_levels(h: HostFeatures) -> Seq<SimdLevel> {
    let s0 = Seq::<SimdLevel>::empty();
    let s1 = if h.avx2 && h.fma { s0.push(SimdLevel::Avx2) } else { s0 };
    let s2 = if h.sse42 { s1.push(SimdLevel::Sse42) } else { s1 };
    let s3 = if h.neon { s2.push(SimdLevel::Neon) } else { s2 };
    let s4 = if h.simd128 { s3.push(SimdLevel::WasmSimd128) } else { s3 };
    s4.push(SimdLevel::Scalar)
}

/// The fastest level the host offers.
pub open spec fn best_level(h: HostFeatures) -> SimdLevel {
    available_levels(h)[0]
}

/// The level whose suffix is `s`, if any.
pub open spec fn level_with_suffix(s: Seq<char>) -> Option<SimdLevel> {
    if s == suffix_of(SimdLevel::Scalar) {
        Some(SimdLevel::Scalar)
    } else if s == suffix_of(SimdLevel::Sse42) {
        Some(SimdLevel::Sse42)
    } else if s == suffix_of(SimdLevel::Avx2) {
        Some(SimdLevel::Avx2)
    } else if s == suffix_of(SimdLevel::Neon) {
        Some(SimdLevel::Neon)
    } else if s == suffix_of(SimdLevel::WasmSimd128) {
        Some(SimdLevel::WasmSimd128)
    } else {
        None
    }
}

/// The level a caller gets for a requested suffix: Scalar for "scalar", the
/// named level where the host offers it and any level may be selected, and
/// otherwise the best level.
pub open spec fn selected_level(s: Seq<char>, h: HostFeatures) -> SimdLevel {
    match level_with_suffix(s) {
        Some(l) => if l == SimdLevel::Scalar || (h.any_level_selectable && offers(h, l)) {
            l
        } else {
            best_level(h)
        },
        None => best_level(h),
    }
}

/// Each level is recovered from its suffix.
pub proof fn lemma_suffix_names_level(l: SimdLevel)
    ensures
        level_with_suffix(suffix_of(l)) == Some(l),
{
    reveal_strlit("scalar");
    reveal_strlit("sse42");
    reveal_strlit("avx2");
    reveal_strlit("neon");
    reveal_strlit("wasm_simd128");
    let s = suffix_of(l);
    match l {
        SimdLevel::Scalar => {},
        SimdLevel::Sse42 => {
            assert(s[0] != suffix_of(SimdLevel::Scalar)[1]);
            assert(s != suffix_of(SimdLevel::Scalar));
        },
        SimdLevel::Avx2 => {
            assert(s.len() != suffix_of(SimdLevel::Scalar).len());
            assert(s.len() != suffix_of(SimdLevel::Sse42).len());
        },
        SimdLevel::Neon => {
            assert(s.len() != suffix_of(SimdLevel::Scalar).len());
            assert(s.len() != suffix_of(SimdLevel::Sse42).len());
            assert(s[0] != suffix_of(SimdLevel::Avx2)[0]);
        },
        SimdLevel::WasmSimd128 => {
            assert(s.len() != suffix_of(SimdLevel::Scalar).len());
            assert(s.len() != suffix_of(SimdLevel::Sse42).len());
            assert(s.len() != suffix_of(SimdLevel::Avx2).len());
            assert(s.len() != suffix_of(SimdLevel::Neon).len());
        },
    }
}

/// A level is listed as available exactly when the host offers it.
pub proof fn lemma_available_iff_offered(h: HostFeatures, l: SimdLevel)
    ensures
        available_levels(h).contains(l) <==> offers(h, l),
{
    let s = available_levels(h);
    if offers(h, l) {
        assert(s.contains(l)) by {
            let s0 = Seq::<SimdLevel>::empty();
            let s1 = if h.avx2 && h.fma { s0.push(SimdLevel::Avx2) } else { s0 };
            let s2 = if h.sse42 { s1.push(SimdLevel::Sse42) } else { s1 };
            let s3 = if h.neon { s2.push(SimdLevel::Neon) } else { s2 };
            let s4 = if h.simd128 { s3.push(SimdLevel::WasmSimd128) } else { s3 };
            match l {
                SimdLevel::Scalar => { assert(s[s4.len() as int] == l); },
                SimdLevel::Avx2 => { assert(s[0] == l); },
                SimdLevel::Sse42 => { assert(s[s1.len() as int] == l); },
                SimdLevel::Neon => { assert(s[s2.len() as int] == l); },
                SimdLevel::WasmSimd128 => { assert(s[s3.len() as int] == l); },
            }
        }
    }
}

/// The level that runs when `l` is asked for: `l` itself where the host
/// offers it, else the best level the host has.
pub open spec fn level_used(h: HostFeatures, l: SimdLevel) -> SimdLevel {
    if offers(h, l) {
        l
    } else {
        best_level(h)
    }
}

/// Asking for the suffix of an available level gives that level back,
/// wherever the host lets a caller select it: always for Scalar and the best
/// level, and for every level when any level may be selected.
pub proof fn lemma_from_suffix_round_trip(h: HostFeatures, l: SimdLevel)
    requires
        available_levels(h).contains(l),
        h.any_level_selectable || l == SimdLevel::Scalar || l == best_level(h),
    ensures
        selected_level(suffix_of(l), h) == l,
{
    lemma_suffix_names_level(l);
    lemma_available_iff_offered(h, l);
}

/// Scalar is available on every host, and it is the slowest listed level.
pub proof fn lemma_scalar_always_available(h: HostFeatures)
    ensures
        available_levels(h).contains(SimdLevel::Scalar),
        available_levels(h).last() == SimdLevel::Scalar,
{
    lemma_available_iff_offered(h, SimdLevel::Scalar);
}

/// A level as frontends list it.
#[derive(Clone, Debug)]
pub struct SimdLevelInfo {
    /// The level's suffix.
    pub id: String,
    /// The level's display name.
    pub name: String,
}

/// The levels the host offers, fastest first, as frontends list them.
pub fn get_simd_levels(host: HostFeatures) -> (r: Vec<SimdLevelInfo>)
    ensures
        r@.len() == available_levels(host).len(),
        forall|i: int| 0 <= i < r@.len() ==> {
            &&& #[trigger] r@[i].id@ == suffix_of(available_levels(host)[i])
            &&& r@[i].name@ == display_name_of(available_levels(host)[i])
        },
{
    let levels = SimdLevel::available(host);
    let mut out: Vec<SimdLevelInfo> = Vec::new();
    let mut i: usize = 0;
    while i < levels.len()
        invariant
            levels@ == available_levels(host),
            i <= levels@.len(),
            out@.len() == i,
            forall|j: int| 0 <= j < i ==> {
                &&& #[trigger] out@[j].id@ == suffix_of(levels@[j])
                &&& out@[j].name@ == display_name_of(levels@[j])
            },
        decreases levels@.len() - i,
    {
        let l = levels[i];
        out.push(SimdLevelInfo { id: l.suffix().to_string(), name: l.display_name().to_string() });
        i = i + 1;
    }
    out
}

impl SimdLevel {
    /// The levels the host offers, fastest first, Scalar last.
    pub fn available(host: HostFeatures) -> (r: Vec<SimdLevel>)
        ensures
            r@ == available_levels(host),
            r@.len() >= 1,
            r@.last() == SimdLevel::Scalar,
            forall|l: SimdLevel| r@.contains(l) <==> offers(host, l),
    {
        let mut levels: Vec<SimdLevel> = Vec::new();
        if host.avx2 && host.fma {
            levels.push(SimdLevel::Avx2);
        }
        if host.sse42 {
            levels.push(SimdLevel::Sse42);
        }
        if host.neon {
            levels.push(SimdLevel::Neon);
        }
        if host.simd128 {
            levels.push(SimdLevel::WasmSimd128);
        }
        levels.push(SimdLevel::Scalar);
        assert(levels@ =~= available_levels(host));
        assert forall|l: SimdLevel| levels@.contains(l) <==> offers(host, l) by {
            lemma_available_iff_offered(host, l);
        }
        levels
    }

    /// The fastest level the host offers.
    pub fn best(host: HostFeatures) -> (r: SimdLevel)
        ensures
            r == best_level(host),
            offers(host, r),
    {
        let levels = Self::available(host);
        proof {
            lemma_available_iff_offered(host, levels@[0]);
            assert(levels@.contains(levels@[0]));
        }
        levels[0]
    }

    /// The level that runs when this one is asked for: this one where the
    /// host offers it, else the best level the host has.
    pub fn used_on(&self, host: HostFeatures) -> (r: SimdLevel)
        ensures
            r == level_used(host, *self),
            offers(host, r),
            available_levels(host).contains(r),
    {
        let offered = match self {
            SimdLevel::Scalar => true,
            SimdLevel::Sse42 => host.sse42,
            SimdLevel::Avx2 => host.avx2 && host.fma,
            SimdLevel::Neon => host.neon,
            SimdLevel::WasmSimd128 => host.simd128,
        };
        let r = if offered { *self } else { Self::best(host) };
        proof {
            lemma_available_iff_offered(host, r);
        }
        r
    }

    /// The human-readable name of this level.
    pub fn display_name(&self) -> (r: &'static str)
        ensures
            r@ == display_name_of(*self),
    {
        match self {
            SimdLevel::Scalar => "Scalar",
            SimdLevel::Sse42 => "SSE4.2",
            SimdLevel::Avx2 => "AVX2",
            SimdLevel::Neon => "NEON",
            SimdLevel::WasmSimd128 => "WASM SIMD128",
        }
    }

    /// The stable suffix of this level, used in results and by frontends.
    pub fn suffix(&self) -> (r: &'static str)
        ensures
            r@ == suffix_of(*self),
    {
        match self {
            SimdLevel::Scalar => "scalar",
            SimdLevel::Sse42 => "sse42",
            SimdLevel::Avx2 => "avx2",
            SimdLevel::Neon => "neon",
            SimdLevel::WasmSimd128 => "wasm_simd128",
        }
    }

    /// The level a caller gets when asking for a suffix. "scalar" always
    /// gives Scalar. Another known suffix gives its level where the host
    /// offers it and lets any level be selected. Everything else gives the
    /// best level, so that unknown suffixes stay usable.
    pub fn from_suffix(s: &str, host: HostFeatures) -> (r: SimdLevel)
        ensures
            r == selected_level(s@, host),
    {
        let named = if str_eq(s, "scalar") {
            Some(SimdLevel::Scalar)
        } else if str_eq(s, "sse42") {
            Some(SimdLevel::Sse42)
        } else if str_eq(s, "avx2") {
            Some(SimdLevel::Avx2)
        } else if str_eq(s, "neon") {
            Some(SimdLevel::Neon)
        } else if str_eq(s, "wasm_simd128") {
            Some(SimdLevel::WasmSimd128)
        } else {
            None
        };
        match named {
            Some(l) => {
                let offered = match l {
                    SimdLevel::Scalar => true,
                    SimdLevel::Sse42 => host.sse42,
                    SimdLevel::Avx2 => host.avx2 && host.fma,
                    SimdLevel::Neon => host.neon,
                    SimdLevel::WasmSimd128 => host.simd128,
                };
                if l == SimdLevel::Scalar || (host.any_level_selectable && offered) {
                    l
                } else {
                    Self::best(host)
                }
            },
            None => Self::best(host),
        }
    }
}

} // verus!
