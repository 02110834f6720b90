use vello_bench::registry::{list_benchmarks, BenchmarkRegistry};
use vello_bench::result::{BenchmarkResult, PlatformInfo, Statistics};
use vello_bench::runner::BenchRunner;

type Recipe = Box<dyn Fn(&BenchRunner) -> BenchmarkResult>;

fn recipe(id: &'static str, iterations: u64) -> Recipe {
    Box::new(move |runner: &BenchRunner| BenchmarkResult {
        id: id.to_string(),
        category: String::new(),
        name: String::new(),
        simd_variant: String::new(),
        statistics: Statistics { total_ns: runner.measurement_ms, iterations },
        timestamp_ms: 0,
        platform: runner.platform.clone(),
    })
}

fn runner() -> BenchRunner {
    BenchRunner::new(100, 7, PlatformInfo { arch: "x".to_string(), os: "y".to_string(), simd_features: vec![] })
}

fn registry() -> BenchmarkRegistry<Recipe> {
    let mut r = BenchmarkRegistry::new();
    r.register("tile/tiger_simd", recipe("tile/tiger_simd", 1));
    r.register("fine/fill/opaque_short_u8_avx2", recipe("fill", 2));
    r.register("fine/pack/block_u8_avx2", recipe("pack", 3));
    r.register("fine_extra/x", recipe("extra", 4));
    r
}

#[test]
fn registry_lists_in_registration_order() {
    let r = registry();
    let ids: Vec<String> = r.list().iter().map(|m| m.id.clone()).collect();
    assert_eq!(ids, vec!["tile/tiger_simd", "fine/fill/opaque_short_u8_avx2", "fine/pack/block_u8_avx2", "fine_extra/x"]);
    let all = list_benchmarks(&r);
    assert_eq!(all[1].category, "fine/fill");
    assert_eq!(all[1].name, "opaque_short");
    assert_eq!(all[1].simd_variant, "u8_avx2");
    assert_eq!(all[0].simd_variant, "simd");
}

#[test]
fn registering_a_path_again_replaces_its_function() {
    let mut r = registry();
    r.register("fine/pack/block_u8_avx2", recipe("pack again", 9));
    assert_eq!(r.list().len(), 4);
    let res = r.run("fine/pack/block_u8_avx2", &runner()).unwrap();
    assert_eq!(res.id, "pack again");
    assert_eq!(res.statistics.iterations, 9);
}

#[test]
fn category_filter_matches_whole_segments() {
    let r = registry();
    let fine: Vec<String> = r.list_by_category("fine").iter().map(|m| m.id.clone()).collect();
    assert_eq!(fine, vec!["fine/fill/opaque_short_u8_avx2", "fine/pack/block_u8_avx2"]);
    assert_eq!(r.list_by_category("fine/fill").len(), 1);
    assert!(r.list_by_category("fin").is_empty());
}

#[test]
fn categories_are_sorted_and_distinct() {
    let mut r = registry();
    r.register("fine/fill/opaque_long_u8_avx2", recipe("fill long", 5));
    assert_eq!(r.categories(), vec!["fine/fill", "fine/pack", "fine_extra", "tile"]);
}

#[test]
fn running_by_id_all_and_category() {
    let r = registry();
    assert!(r.run("nope", &runner()).is_none());
    assert_eq!(r.run("tile/tiger_simd", &runner()).unwrap().statistics.total_ns, 7);
    let all: Vec<u64> = r.run_all(&runner()).iter().map(|x| x.statistics.iterations).collect();
    assert_eq!(all, vec![1, 2, 3, 4]);
    let fine: Vec<u64> = r.run_category("fine", &runner()).iter().map(|x| x.statistics.iterations).collect();
    assert_eq!(fine, vec![2, 3]);
}
