use vello_bench::registry::{parse_name_variant, BenchmarkMetadata};

#[test]
fn path_with_variant() {
    let m = BenchmarkMetadata::from_path("fine/fill/opaque_short_u8_neon");
    assert_eq!(m.id, "fine/fill/opaque_short_u8_neon");
    assert_eq!(m.category, "fine/fill");
    assert_eq!(m.name, "opaque_short");
    assert_eq!(m.simd_variant, "u8_neon");
}

#[test]
fn path_without_variant() {
    let m = BenchmarkMetadata::from_path("tile/paris_30k");
    assert_eq!(m.category, "tile");
    assert_eq!(m.name, "paris_30k");
    assert_eq!(m.simd_variant, "default");
}

#[test]
fn path_without_slash() {
    let m = BenchmarkMetadata::from_path("lonely_scalar");
    assert_eq!(m.category, "");
    assert_eq!(m.name, "lonely");
    assert_eq!(m.simd_variant, "scalar");
}

#[test]
fn first_suffix_in_order_wins() {
    assert_eq!(parse_name_variant("x_u8_scalar"), ("x".to_string(), "u8_scalar".to_string()));
    assert_eq!(parse_name_variant("x_f32_scalar"), ("x".to_string(), "f32_scalar".to_string()));
    assert_eq!(parse_name_variant("render_simd"), ("render".to_string(), "simd".to_string()));
    assert_eq!(parse_name_variant("_scalar"), ("".to_string(), "scalar".to_string()));
    assert_eq!(parse_name_variant("plain"), ("plain".to_string(), "default".to_string()));
}

#[test]
fn listed_ids_read_back_as_paths() {
    let assets = vec!["tiger".to_string(), "paris_30k".to_string()];
    for b in vello_bench::catalogue::get_benchmark_list(&assets) {
        let m = BenchmarkMetadata::from_path(&b.id);
        assert_eq!(m.category, b.category);
        assert_eq!(m.name, b.name);
        assert_eq!(m.simd_variant, "default");
    }
}
