use vello_bench::simd::{get_simd_levels, HostFeatures, SimdLevel};

fn host(avx2: bool, sse42: bool, neon: bool, simd128: bool, selectable: bool) -> HostFeatures {
    HostFeatures { avx2, fma: avx2, sse42, neon, simd128, any_level_selectable: selectable }
}

const ALL: [SimdLevel; 5] = [
    SimdLevel::Scalar,
    SimdLevel::Sse42,
    SimdLevel::Avx2,
    SimdLevel::Neon,
    SimdLevel::WasmSimd128,
];

#[test]
fn x86_host_lists_avx2_then_sse42_then_scalar() {
    let levels = SimdLevel::available(host(true, true, false, false, true));
    assert_eq!(levels, vec![SimdLevel::Avx2, SimdLevel::Sse42, SimdLevel::Scalar]);
    assert_eq!(SimdLevel::best(host(true, true, false, false, true)), SimdLevel::Avx2);
}

#[test]
fn avx2_needs_fma() {
    let h = HostFeatures {
        avx2: true,
        fma: false,
        sse42: true,
        neon: false,
        simd128: false,
        any_level_selectable: true,
    };
    assert_eq!(SimdLevel::available(h), vec![SimdLevel::Sse42, SimdLevel::Scalar]);
}

#[test]
fn bare_host_has_only_scalar() {
    let h = host(false, false, false, false, false);
    assert_eq!(SimdLevel::available(h), vec![SimdLevel::Scalar]);
    assert_eq!(SimdLevel::best(h), SimdLevel::Scalar);
}

#[test]
fn scalar_is_available_on_every_host() {
    for bits in 0..32u32 {
        let h = host(bits & 1 != 0, bits & 2 != 0, bits & 4 != 0, bits & 8 != 0, bits & 16 != 0);
        let levels = SimdLevel::available(h);
        assert!(levels.contains(&SimdLevel::Scalar));
        assert_eq!(*levels.last().unwrap(), SimdLevel::Scalar);
    }
}

#[test]
fn suffixes_and_names() {
    let suffixes: Vec<&str> = ALL.iter().map(|l| l.suffix()).collect();
    assert_eq!(suffixes, vec!["scalar", "sse42", "avx2", "neon", "wasm_simd128"]);
    let names: Vec<&str> = ALL.iter().map(|l| l.display_name()).collect();
    assert_eq!(names, vec!["Scalar", "SSE4.2", "AVX2", "NEON", "WASM SIMD128"]);
}

#[test]
fn every_available_level_round_trips_through_its_suffix() {
    for bits in 0..16u32 {
        let h = host(bits & 1 != 0, bits & 2 != 0, bits & 4 != 0, bits & 8 != 0, true);
        for l in SimdLevel::available(h) {
            assert_eq!(SimdLevel::from_suffix(l.suffix(), h), l);
        }
    }
}

#[test]
fn scalar_suffix_always_gives_scalar() {
    for selectable in [false, true] {
        let h = host(true, true, false, false, selectable);
        let l = SimdLevel::from_suffix("scalar", h);
        assert_eq!(l, SimdLevel::Scalar);
        assert_eq!(l.suffix(), "scalar");
    }
}

#[test]
fn neon_on_x86_gives_best() {
    let h = host(true, true, false, false, true);
    assert_eq!(SimdLevel::from_suffix("neon", h), SimdLevel::Avx2);
}

#[test]
fn unknown_suffix_gives_best() {
    let h = host(false, true, false, false, true);
    assert_eq!(SimdLevel::from_suffix("avx512", h), SimdLevel::Sse42);
    assert_eq!(SimdLevel::from_suffix("", h), SimdLevel::Sse42);
}

#[test]
fn best_only_host_maps_sub_levels_to_best() {
    let h = host(true, true, false, false, false);
    assert_eq!(SimdLevel::from_suffix("sse42", h), SimdLevel::Avx2);
    assert_eq!(SimdLevel::from_suffix("avx2", h), SimdLevel::Avx2);
}

#[test]
fn level_infos_follow_available_order() {
    let infos = get_simd_levels(host(true, true, false, false, true));
    let pairs: Vec<(String, String)> = infos.into_iter().map(|i| (i.id, i.name)).collect();
    assert_eq!(
        pairs,
        vec![
            ("avx2".to_string(), "AVX2".to_string()),
            ("sse42".to_string(), "SSE4.2".to_string()),
            ("scalar".to_string(), "Scalar".to_string()),
        ]
    );
}
