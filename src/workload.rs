//! What each benchmark measures: the parameters read from its name, and the
//! asset a data-driven benchmark runs over.

use vstd::prelude::*;
use crate::catalogue::{Category, fixed_names, is_data_driven, names_of};
use crate::text::str_eq;
use rand::rngs::StdRng;
use rand::{Rng, SeedableRng};

verus! {

#[verifier::external_type_specification]
#[verifier::external_body]
pub struct ExStdRng(StdRng);

/// Relies on rand's SeedableRng::from_seed for StdRng: a generator whose
/// stream is fixed by the seed.
#[verifier::external_body]
fn seeded_rng(seed: [u8; 32]) -> StdRng {
    StdRng::from_seed(seed)
}

/// Relies on rand's Rng::random::<u8>: the next byte of the stream.
#[verifier::external_body]
fn next_byte(rng: &mut StdRng) -> u8 {
    rng.random::<u8>()
}

/// The per-pixel alpha mask of the strip benchmarks: `count` bytes from the
/// standard generator seeded with zeros, the same on every run.
pub fn seeded_alphas(count: usize) -> (r: Vec<u8>)
    ensures
        r@.len() == count,
{
    let mut rng = seeded_rng([0u8; 32]);
    let mut out: Vec<u8> = Vec::new();
    let mut i: usize = 0;
    while i < count
        invariant
            i <= count,
            out@.len() == i,
        decreases count - i,
    {
        out.push(next_byte(&mut rng));
        i = i + 1;
    }
    out
}

/// How a paint extends beyond its bounds.
#[derive(Clone, Copy, Debug, PartialEq, Eq, Hash, Structural)]
pub enum ExtendMode {
    Pad,
    Repeat,
    Reflect,
}

/// The geometry of a gradient.
#[derive(Clone, Copy, Debug, PartialEq, Eq, Hash, Structural)]
pub enum GradientShape {
    /// Linear, from (128, 128) to (134, 134).
    Linear,
    /// Radial about the tile centre, radius 25 to 75.
    Radial,
    /// Sweep about the tile centre, from 70 to 250 degrees.
    Sweep,
}

/// The colour stops of a gradient.
#[derive(Clone, Copy, Debug, PartialEq, Eq, Hash, Structural)]
pub enum GradientStops {
    /// Four opaque stops: blue, green, red, yellow.
    Opaque,
    /// The same four stops, green at half alpha and yellow at 0.7.
    Transparent,
    /// 121 evenly spaced stops of seeded random colour.
    ManyRandom,
}

/// The pixmap an image benchmark samples.
#[derive(Clone, Copy, Debug, PartialEq, Eq, Hash, Structural)]
pub enum ImageAsset {
    /// The large COLR PNG.
    LargeColr,
    /// The 2x2 PNG.
    Small,
}

/// The transform applied to an image paint.
#[derive(Clone, Copy, Debug, PartialEq, Eq, Hash, Structural)]
pub enum ImageTransform {
    Identity,
    /// Uniform scale by 3.
    ScaleThree,
    /// Rotation by one radian about the tile centre.
    RotateAboutCentre,
    /// Shift by half a wide tile to the right.
    ShiftHalfTile,
}

/// Sampler quality of an image paint.
#[derive(Clone, Copy, Debug, PartialEq, Eq, Hash, Structural)]
pub enum SamplerQuality {
    Low,
    Medium,
    High,
}

/// A separable or non-separable mix mode.
#[derive(Clone, Copy, Debug, PartialEq, Eq, Hash, Structural)]
pub enum MixMode {
    Normal,
    Multiply,
    Screen,
    Overlay,
    Darken,
    Lighten,
    ColorDodge,
    ColorBurn,
    HardLight,
    SoftLight,
    Difference,
    Exclusion,
    Hue,
    Saturation,
    Color,
    Luminosity,
}

/// A Porter-Duff compose mode.
#[derive(Clone, Copy, Debug, PartialEq, Eq, Hash, Structural)]
pub enum ComposeMode {
    SrcOver,
    SrcIn,
    DestOver,
    Xor,
}

/// The workload of one benchmark.
#[derive(Clone, Copy, Debug, PartialEq, Eq, Hash, Structural)]
pub enum Workload {
    /// Solid fill of a span of `width` pixels, at alpha 0.3 where
    /// `transparent`, else opaque.
    Fill { width: u16, transparent: bool },
    /// Solid paint over a strip of `width` pixels with seeded random alpha.
    Strip { width: u16 },
    /// Packing a wide tile, `full_width` or one pixel narrower.
    Pack { full_width: bool },
    /// Gradient fill of one wide tile.
    Gradient { shape: GradientShape, stops: GradientStops, extend: ExtendMode },
    /// Image fill of one wide tile.
    Image {
        asset: ImageAsset,
        transform: ImageTransform,
        quality: SamplerQuality,
        extend: ExtendMode,
    },
    /// Blurred rounded rectangle over one wide tile, rotated about its
    /// centre or not.
    RoundedBlurredRect { rotated: bool },
    /// Solid fill of one wide tile under a blend mode.
    Blend { mix: MixMode, compose: ComposeMode },
    /// Tiling the lines of an asset.
    Tile { asset: usize },
    /// Flattening the fills and expanded strokes of an asset.
    Flatten { asset: usize },
    /// Expanding the strokes of an asset.
    Strokes { asset: usize },
    /// Rendering strips from the sorted tiles of an asset.
    RenderStrips { asset: usize },
    /// Rendering a text layout, with or without warm glyph caches and hinting.
    Glyph { cached: bool, hinted: bool },
    /// Rendering layouts at ten scales, then maintaining the glyph caches.
    GlyphMaintain,
    /// Overlapping scaled images composed end to end.
    ImagesOverlapping,
}

/// The mix mode at position `i` of the blend name table.
pub open spec fn mix_at(i: nat) -> MixMode {
    if i == 0 { MixMode::Normal }
    else if i == 1 { MixMode::Multiply }
    else if i == 2 { MixMode::Screen }
    else if i == 3 { MixMode::Overlay }
    else if i == 4 { MixMode::Darken }
    else if i == 5 { MixMode::Lighten }
    else if i == 6 { MixMode::ColorDodge }
    else if i == 7 { MixMode::ColorBurn }
    else if i == 8 { MixMode::HardLight }
    else if i == 9 { MixMode::SoftLight }
    else if i == 10 { MixMode::Difference }
    else if i == 11 { MixMode::Exclusion }
    else if i == 12 { MixMode::Hue }
    else if i == 13 { MixMode::Saturation }
    else if i == 14 { MixMode::Color }
    else { MixMode::Luminosity }
}

/// The compose mode at position `i` of the compose part of the blend table.
pub open spec fn compose_at(i: nat) -> ComposeMode {
    if i == 0 { ComposeMode::SrcOver }
    else if i == 1 { ComposeMode::SrcIn }
    else if i == 2 { ComposeMode::DestOver }
    else { ComposeMode::Xor }
}

/// The workload of the `i`-th name of a fixed category's table.
pub open spec fn fixed_workload(c: Category, i: nat) -> Workload {
    match c {
        Category::FineFill => Workload::Fill {
            width: if i % 2 == 0 { 32 } else { 256 },
            transparent: i >= 2,
        },
        Category::FineStrip => Workload::Strip { width: if i == 0 { 8 } else { 64 } },
        Category::FinePack => Workload::Pack { full_width: i == 0 },
        Category::FineGradient => Workload::Gradient {
            shape: if i == 1 {
                GradientShape::Radial
            } else if i == 2 {
                GradientShape::Sweep
            } else {
                GradientShape::Linear
            },
            stops: if i == 3 {
                GradientStops::ManyRandom
            } else if i == 4 {
                GradientStops::Transparent
            } else {
                GradientStops::Opaque
            },
            extend: if i == 3 { ExtendMode::Repeat } else { ExtendMode::Pad },
        },
        Category::FineImage => Workload::Image {
            asset: if i >= 6 { ImageAsset::Small } else { ImageAsset::LargeColr },
            transform: if i == 0 {
                ImageTransform::Identity
            } else if i == 2 {
                ImageTransform::RotateAboutCentre
            } else if i >= 6 {
                ImageTransform::ShiftHalfTile
            } else {
                ImageTransform::ScaleThree
            },
            quality: if i == 4 {
                SamplerQuality::Medium
            } else if i == 5 {
                SamplerQuality::High
            } else {
                SamplerQuality::Low
            },
            extend: if i == 7 {
                ExtendMode::Repeat
            } else if i == 8 {
                ExtendMode::Reflect
            } else {
                ExtendMode::Pad
            },
        },
        Category::FineRoundedBlurredRect => Workload::RoundedBlurredRect { rotated: i == 1 },
        Category::FineBlend => if i < 16 {
            Workload::Blend { mix: mix_at(i), compose: ComposeMode::SrcOver }
        } else {
            Workload::Blend { mix: MixMode::Normal, compose: compose_at((i - 16) as nat) }
        },
        Category::Glyph => if i == 4 {
            Workload::GlyphMaintain
        } else {
            Workload::Glyph { cached: i % 2 == 0, hinted: i < 2 }
        },
        Category::Integration => Workload::ImagesOverlapping,
        Category::Tile => Workload::Tile { asset: i as usize },
        Category::Flatten => Workload::Flatten { asset: i as usize },
        Category::Strokes => Workload::Strokes { asset: i as usize },
        Category::RenderStrips => Workload::RenderStrips { asset: i as usize },
    }
}

/// Whether `j` is the first position of `n` in `names`.
pub open spec fn is_first_index(names: Seq<Seq<char>>, n: Seq<char>, j: int) -> bool {
    &&& 0 <= j < names.len()
    &&& names[j] == n
    &&& forall|k: int| 0 <= k < j ==> names[k] != n
}

/// The workload of `name` within `c`, the first match in its name list
/// deciding; `None` where the name is not listed.
pub open spec fn workload_named(c: Category, name: Seq<char>, assets: Seq<Seq<char>>) -> Option<Workload> {
    if exists|j: int| is_first_index(names_of(c, assets), name, j) {
        let j = choose|j: int| is_first_index(names_of(c, assets), name, j);
        Some(fixed_workload(c, j as nat))
    } else {
        None
    }
}

/// A name has at most one first position.
pub proof fn lemma_first_index_unique(names: Seq<Seq<char>>, n: Seq<char>, i: int, j: int)
    requires
        is_first_index(names, n, i),
        is_first_index(names, n, j),
    ensures
        i == j,
{
}

/// A listed name has a first position.
pub proof fn lemma_listed_has_first_index(names: Seq<Seq<char>>, n: Seq<char>, j: int)
    requires
        0 <= j < names.len(),
        names[j] == n,
    ensures
        exists|k: int| is_first_index(names, n, k),
    decreases j,
{
    if exists|k: int| 0 <= k < j && names[k] == n {
        let k = choose|k: int| 0 <= k < j && names[k] == n;
        lemma_listed_has_first_index(names, n, k);
    } else {
        assert(is_first_index(names, n, j));
    }
}

/// The first position of `name` among `names`.
fn find_name(names: &Vec<&str>, name: &str) -> (r: Option<usize>)
    ensures
        r matches Some(j) ==> is_first_index(names@.map_values(|s: &str| s@), name@, j as int),
        r is None ==> forall|j: int| 0 <= j < names@.len() ==> names@[j]@ != name@,
{
    let mut j: usize = 0;
    while j < names.len()
        invariant
            j <= names@.len(),
            forall|k: int| 0 <= k < j ==> names@[k]@ != name@,
        decreases names@.len() - j,
    {
        if str_eq(names[j], name) {
            return Some(j);
        }
        j = j + 1;
    }
    None
}

/// The first position of `name` among the asset names.
fn find_asset(assets: &Vec<String>, name: &str) -> (r: Option<usize>)
    ensures
        r matches Some(j) ==> is_first_index(assets@.map_values(|s: String| s@), name@, j as int),
        r is None ==> forall|j: int| 0 <= j < assets@.len() ==> assets@[j]@ != name@,
{
    let mut j: usize = 0;
    while j < assets.len()
        invariant
            j <= assets@.len(),
            forall|k: int| 0 <= k < j ==> assets@[k]@ != name@,
        decreases assets@.len() - j,
    {
        if str_eq(assets[j].as_str(), name) {
            return Some(j);
        }
        j = j + 1;
    }
    None
}

/// The workload of the `i`-th name of `c`'s name list.
fn workload_at(c: Category, i: usize) -> (r: Workload)
    ensures
        r == fixed_workload(c, i as nat),
{
    match c {
        Category::FineFill => Workload::Fill {
            width: if i % 2 == 0 { 32 } else { 256 },
            transparent: i >= 2,
        },
        Category::FineStrip => Workload::Strip { width: if i == 0 { 8 } else { 64 } },
        Category::FinePack => Workload::Pack { full_width: i == 0 },
        Category::FineGradient => Workload::Gradient {
            shape: if i == 1 {
                GradientShape::Radial
            } else if i == 2 {
                GradientShape::Sweep
            } else {
                GradientShape::Linear
            },
            stops: if i == 3 {
                GradientStops::ManyRandom
            } else if i == 4 {
                GradientStops::Transparent
            } else {
                GradientStops::Opaque
            },
            extend: if i == 3 { ExtendMode::Repeat } else { ExtendMode::Pad },
        },
        Category::FineImage => Workload::Image {
            asset: if i >= 6 { ImageAsset::Small } else { ImageAsset::LargeColr },
            transform: if i == 0 {
                ImageTransform::Identity
            } else if i == 2 {
                ImageTransform::RotateAboutCentre
            } else if i >= 6 {
                ImageTransform::ShiftHalfTile
            } else {
                ImageTransform::ScaleThree
            },
            quality: if i == 4 {
                SamplerQuality::Medium
            } else if i == 5 {
                SamplerQuality::High
            } else {
                SamplerQuality::Low
            },
            extend: if i == 7 {
                ExtendMode::Repeat
            } else if i == 8 {
                ExtendMode::Reflect
            } else {
                ExtendMode::Pad
            },
        },
        Category::FineRoundedBlurredRect => Workload::RoundedBlurredRect { rotated: i == 1 },
        Category::FineBlend => if i < 16 {
            let mix = if i == 0 { MixMode::Normal }
                else if i == 1 { MixMode::Multiply }
                else if i == 2 { MixMode::Screen }
                else if i == 3 { MixMode::Overlay }
                else if i == 4 { MixMode::Darken }
                else if i == 5 { MixMode::Lighten }
                else if i == 6 { MixMode::ColorDodge }
                else if i == 7 { MixMode::ColorBurn }
                else if i == 8 { MixMode::HardLight }
                else if i == 9 { MixMode::SoftLight }
                else if i == 10 { MixMode::Difference }
                else if i == 11 { MixMode::Exclusion }
                else if i == 12 { MixMode::Hue }
                else if i == 13 { MixMode::Saturation }
                else if i == 14 { MixMode::Color }
                else { MixMode::Luminosity };
            Workload::Blend { mix, compose: ComposeMode::SrcOver }
        } else {
            let compose = if i == 16 { ComposeMode::SrcOver }
                else if i == 17 { ComposeMode::SrcIn }
                else if i == 18 { ComposeMode::DestOver }
                else { ComposeMode::Xor };
            Workload::Blend { mix: MixMode::Normal, compose }
        },
        Category::Glyph => if i == 4 {
            Workload::GlyphMaintain
        } else {
            Workload::Glyph { cached: i % 2 == 0, hinted: i < 2 }
        },
        Category::Integration => Workload::ImagesOverlapping,
        Category::Tile => Workload::Tile { asset: i },
        Category::Flatten => Workload::Flatten { asset: i },
        Category::Strokes => Workload::Strokes { asset: i },
        Category::RenderStrips => Workload::RenderStrips { asset: i },
    }
}

/// The workload of `name` within `c`; `None` where `c` has no benchmark of
/// that name.
pub fn workload_for(c: Category, name: &str, assets: &Vec<String>) -> (r: Option<Workload>)
    ensures
        r == workload_named(c, name@, assets@.map_values(|s: String| s@)),
{
    let ghost av = assets@.map_values(|s: String| s@);
    let found = if c == Category::Tile || c == Category::Flatten || c == Category::Strokes
        || c == Category::RenderStrips {
        find_asset(assets, name)
    } else {
        let names = c.names();
        let ghost nv = names@.map_values(|s: &str| s@);
        assert(nv =~= fixed_names(c));
        find_name(&names, name)
    };
    let ghost list = names_of(c, av);
    match found {
        Some(j) => {
            proof {
                if is_data_driven(c) {
                    assert(list == av);
                } else {
                    assert(list == fixed_names(c));
                }
                let k = choose|k: int| is_first_index(list, name@, k);
                lemma_first_index_unique(list, name@, j as int, k);
            }
            Some(workload_at(c, j))
        },
        None => {
            proof {
                if exists|k: int| is_first_index(list, name@, k) {
                    let k = choose|k: int| is_first_index(list, name@, k);
                    if is_data_driven(c) {
                        assert(assets@[k]@ == list[k]);
                    } else {
                        assert(list == fixed_names(c));
                    }
                }
            }
            None
        },
    }
}

} // verus!
