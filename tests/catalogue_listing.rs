use vello_bench::catalogue::{asset_names_valid, get_benchmark_list, parse_id, BenchmarkInfo, Category};
use vello_bench::dispatch::resolve;
use vello_bench::workload::{
    ComposeMode, ExtendMode, GradientShape, GradientStops, ImageAsset, ImageTransform, MixMode,
    SamplerQuality, Workload,
};

fn assets() -> Vec<String> {
    vec!["ghostscript_tiger".to_string(), "paris_30k".to_string()]
}

fn has(list: &[BenchmarkInfo], id: &str, category: &str, name: &str) -> bool {
    list.iter().any(|b| b.id == id && b.category == category && b.name == name)
}

#[test]
fn listing_contains_fill_and_pack_entries() {
    let list = get_benchmark_list(&assets());
    assert!(has(&list, "fine/fill/opaque_short", "fine/fill", "opaque_short"));
    assert!(has(&list, "fine/pack/regular", "fine/pack", "regular"));
}

#[test]
fn listing_sizes() {
    assert_eq!(get_benchmark_list(&Vec::new()).len(), 50);
    assert_eq!(get_benchmark_list(&assets()).len(), 58);
}

#[test]
fn data_driven_entries_follow_each_asset() {
    let list = get_benchmark_list(&assets());
    let ids: Vec<&str> = list[50..].iter().map(|b| b.id.as_str()).collect();
    assert_eq!(
        ids,
        vec![
            "tile/ghostscript_tiger",
            "flatten/ghostscript_tiger",
            "strokes/ghostscript_tiger",
            "render_strips/ghostscript_tiger",
            "tile/paris_30k",
            "flatten/paris_30k",
            "strokes/paris_30k",
            "render_strips/paris_30k",
        ]
    );
}

#[test]
fn every_id_is_category_slash_name() {
    for b in get_benchmark_list(&assets()) {
        assert_eq!(b.id, format!("{}/{}", b.category, b.name));
        assert!(!b.name.contains('/'));
    }
}

#[test]
fn every_listed_id_parses_back() {
    for b in get_benchmark_list(&assets()) {
        let (c, name) = parse_id(&b.id).unwrap();
        assert_eq!(c.path(), b.category);
        assert_eq!(name, b.name);
    }
}

#[test]
fn parse_takes_the_longest_category() {
    assert_eq!(
        parse_id("fine/rounded_blurred_rect/with_transform"),
        Some((Category::FineRoundedBlurredRect, "with_transform".to_string()))
    );
    assert_eq!(parse_id("tile/a/b"), Some((Category::Tile, "a/b".to_string())));
    assert_eq!(parse_id("fine/fill/"), Some((Category::FineFill, String::new())));
}

#[test]
fn parse_rejects_unknown_categories() {
    assert_eq!(parse_id("does/not/exist"), None);
    assert_eq!(parse_id("fine/fill"), None);
    assert_eq!(parse_id("fine"), None);
    assert_eq!(parse_id(""), None);
}

#[test]
fn unknown_id_does_not_resolve() {
    assert!(resolve("does/not/exist", &assets()).is_none());
    assert!(resolve("fine/fill/nothing", &assets()).is_none());
    assert!(resolve("tile/not_an_asset", &assets()).is_none());
}

#[test]
fn every_listed_id_resolves() {
    for b in get_benchmark_list(&assets()) {
        let r = resolve(&b.id, &assets()).unwrap();
        assert_eq!(r.category.path(), b.category);
        assert_eq!(r.name, b.name);
    }
}

fn workload(id: &str) -> Workload {
    resolve(id, &assets()).unwrap().workload
}

#[test]
fn fill_and_strip_parameters() {
    assert_eq!(workload("fine/fill/opaque_short"), Workload::Fill { width: 32, transparent: false });
    assert_eq!(workload("fine/fill/transparent_long"), Workload::Fill { width: 256, transparent: true });
    assert_eq!(workload("fine/strip/solid_short"), Workload::Strip { width: 8 });
    assert_eq!(workload("fine/strip/solid_long"), Workload::Strip { width: 64 });
    assert_eq!(workload("fine/pack/block"), Workload::Pack { full_width: true });
    assert_eq!(workload("fine/pack/regular"), Workload::Pack { full_width: false });
}

#[test]
fn gradient_parameters() {
    assert_eq!(
        workload("fine/gradient/many_stops"),
        Workload::Gradient {
            shape: GradientShape::Linear,
            stops: GradientStops::ManyRandom,
            extend: ExtendMode::Repeat,
        }
    );
    assert_eq!(
        workload("fine/gradient/sweep_opaque"),
        Workload::Gradient {
            shape: GradientShape::Sweep,
            stops: GradientStops::Opaque,
            extend: ExtendMode::Pad,
        }
    );
}

#[test]
fn image_parameters() {
    assert_eq!(
        workload("fine/image/quality_high"),
        Workload::Image {
            asset: ImageAsset::LargeColr,
            transform: ImageTransform::ScaleThree,
            quality: SamplerQuality::High,
            extend: ExtendMode::Pad,
        }
    );
    assert_eq!(
        workload("fine/image/extend_reflect"),
        Workload::Image {
            asset: ImageAsset::Small,
            transform: ImageTransform::ShiftHalfTile,
            quality: SamplerQuality::Low,
            extend: ExtendMode::Reflect,
        }
    );
}

#[test]
fn blend_parameters() {
    assert_eq!(
        workload("fine/blend/soft_light"),
        Workload::Blend { mix: MixMode::SoftLight, compose: ComposeMode::SrcOver }
    );
    assert_eq!(
        workload("fine/blend/xor"),
        Workload::Blend { mix: MixMode::Normal, compose: ComposeMode::Xor }
    );
}

#[test]
fn glyph_and_data_parameters() {
    assert_eq!(workload("glyph/uncached_unhinted"), Workload::Glyph { cached: false, hinted: false });
    assert_eq!(workload("glyph/maintain"), Workload::GlyphMaintain);
    assert_eq!(workload("render_strips/paris_30k"), Workload::RenderStrips { asset: 1 });
    assert_eq!(workload("flatten/ghostscript_tiger"), Workload::Flatten { asset: 0 });
}

#[test]
fn strip_alpha_mask_is_seeded() {
    let a = vello_bench::workload::seeded_alphas(1024);
    let b = vello_bench::workload::seeded_alphas(1024);
    assert_eq!(a.len(), 1024);
    assert_eq!(a, b);
    assert!(a.iter().any(|x| *x != 0));
    assert!(vello_bench::workload::seeded_alphas(0).is_empty());
}

#[test]
fn listed_ids_are_distinct() {
    let list = get_benchmark_list(&assets());
    for i in 0..list.len() {
        for j in i + 1..list.len() {
            assert_ne!(list[i].id, list[j].id);
        }
    }
}

#[test]
fn asset_name_validity() {
    assert!(asset_names_valid(&assets()));
    assert!(asset_names_valid(&Vec::new()));
    assert!(!asset_names_valid(&vec!["a".to_string(), "a".to_string()]));
    assert!(!asset_names_valid(&vec!["".to_string()]));
    assert!(!asset_names_valid(&vec!["a/b".to_string()]));
}
