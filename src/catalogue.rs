//! The benchmark catalogue: categories, their fixed name tables, the
//! listing of every benchmark, and identifier parsing.

use vstd::prelude::*;
use vstd::string::*;
use crate::text::{concat3, last_index_of, starts_with_then, str_eq};

verus! {

/// A benchmark category.
#[derive(Clone, Copy, Debug, PartialEq, Eq, Hash, Structural)]
pub enum Category {
    /// Solid fills of a span, "fine/fill".
    FineFill,
    /// Solid paint under a per-pixel alpha mask, "fine/strip".
    FineStrip,
    /// Packing a wide tile into its output region, "fine/pack".
    FinePack,
    /// Gradient fills, "fine/gradient".
    FineGradient,
    /// Image fills, "fine/image".
    FineImage,
    /// Blurred rounded rectangles, "fine/rounded_blurred_rect".
    FineRoundedBlurredRect,
    /// Blend and compose modes, "fine/blend".
    FineBlend,
    /// Tiling the lines of an asset, "tile".
    Tile,
    /// Flattening the paths of an asset, "flatten".
    Flatten,
    /// Expanding the strokes of an asset, "strokes".
    Strokes,
    /// Rendering strips from an asset's tiles, "render_strips".
    RenderStrips,
    /// Text rendering, "glyph".
    Glyph,
    /// Composed end-to-end scenes, "integration".
    Integration,
}

/// The taxonomy path of a category.
pub open spec fn category_path(c: Category) -> Seq<char> {
    match c {
        Category::FineFill => "fine/fill"@,
        Category::FineStrip => "fine/strip"@,
        Category::FinePack => "fine/pack"@,
        Category::FineGradient => "fine/gradient"@,
        Category::FineImage => "fine/image"@,
        Category::FineRoundedBlurredRect => "fine/rounded_blurred_rect"@,
        Category::FineBlend => "fine/blend"@,
        Category::Tile => "tile"@,
        Category::Flatten => "flatten"@,
        Category::Strokes => "strokes"@,
        Category::RenderStrips => "render_strips"@,
        Category::Glyph => "glyph"@,
        Category::Integration => "integration"@,
    }
}

/// Whether a category has one benchmark per asset rather than a fixed table.
pub open spec fn is_data_driven(c: Category) -> bool {
    c == Category::Tile || c == Category::Flatten || c == Category::Strokes
        || c == Category::RenderStrips
}

/// Names of the mix-mode blend cases.
pub open spec fn mix_names() -> Seq<Seq<char>> {
    seq![
        "normal"@, "multiply"@, "screen"@, "overlay"@, "darken"@, "lighten"@,
        "color_dodge"@, "color_burn"@, "hard_light"@, "soft_light"@, "difference"@,
        "exclusion"@, "hue"@, "saturation"@, "color"@, "luminosity"@,
    ]
}

/// Names of the compose-mode blend cases.
pub open spec fn compose_names() -> Seq<Seq<char>> {
    seq!["src_over"@, "src_in"@, "dest_over"@, "xor"@]
}

/// The fixed name table of a category; empty for data-driven ones.
pub open spec fn fixed_names(c: Category) -> Seq<Seq<char>> {
    match c {
        Category::FineFill => seq![
            "opaque_short"@, "opaque_long"@, "transparent_short"@, "transparent_long"@,
        ],
        Category::FineStrip => seq!["solid_short"@, "solid_long"@],
        Category::FinePack => seq!["block"@, "regular"@],
        Category::FineGradient => seq![
            "linear_opaque"@, "radial_opaque"@, "sweep_opaque"@, "many_stops"@, "transparent"@,
        ],
        Category::FineImage => seq![
            "no_transform"@, "scale"@, "rotate"@, "quality_low"@, "quality_medium"@,
            "quality_high"@, "extend_pad"@, "extend_repeat"@, "extend_reflect"@,
        ],
        Category::FineRoundedBlurredRect => seq!["no_transform"@, "with_transform"@],
        Category::FineBlend => mix_names() + compose_names(),
        Category::Glyph => seq![
            "cached_hinted"@, "uncached_hinted"@, "cached_unhinted"@, "uncached_unhinted"@,
            "maintain"@,
        ],
        Category::Integration => seq!["images_overlapping"@],
        _ => Seq::empty(),
    }
}

/// What a frontend sees of a benchmark, as character sequences.
pub struct InfoView {
    pub id: Seq<char>,
    pub category: Seq<char>,
    pub name: Seq<char>,
}

/// The identifier of `name` within category `c`: "{category}/{name}".
pub open spec fn id_of(c: Category, name: Seq<char>) -> Seq<char> {
    category_path(c) + seq!['/'] + name
}

/// The listing entry of `name` within category `c`.
pub open spec fn info_of(c: Category, name: Seq<char>) -> InfoView {
    InfoView { id: id_of(c, name), category: category_path(c), name }
}

/// The entries of a category for the given names, in order.
pub open spec fn infos_of(c: Category, names: Seq<Seq<char>>) -> Seq<InfoView> {
    Seq::new(names.len(), |i: int| info_of(c, names[i]))
}

/// The categories with fixed tables, in listing order.
pub open spec fn fixed_categories() -> Seq<Category> {
    seq![
        Category::FineFill,
        Category::FineGradient,
        Category::FineImage,
        Category::FinePack,
        Category::FineStrip,
        Category::FineRoundedBlurredRect,
        Category::FineBlend,
        Category::Glyph,
        Category::Integration,
    ]
}

/// The data-driven categories, in listing order.
pub open spec fn data_categories() -> Seq<Category> {
    seq![Category::Tile, Category::Flatten, Category::Strokes, Category::RenderStrips]
}

/// The entries of the fixed categories among the first `k` of them.
pub open spec fn fixed_listing(k: nat) -> Seq<InfoView>
    decreases k,
{
    if k == 0 {
        Seq::empty()
    } else {
        let c = fixed_categories()[k - 1];
        fixed_listing((k - 1) as nat) + infos_of(c, fixed_names(c))
    }
}

/// The entries of the data-driven categories for the given assets: for each
/// asset in turn, one entry per data-driven category.
pub open spec fn data_listing(assets: Seq<Seq<char>>) -> Seq<InfoView>
    decreases assets.len(),
{
    if assets.len() == 0 {
        Seq::empty()
    } else {
        let a = assets.last();
        data_listing(assets.drop_last()) + Seq::new(4, |j: int| info_of(data_categories()[j], a))
    }
}

/// The whole catalogue: the fixed categories, then the data-driven ones.
pub open spec fn catalogue(assets: Seq<Seq<char>>) -> Seq<InfoView> {
    fixed_listing(9) + data_listing(assets)
}

/// Whether `id` begins with the path of `c` and a slash.
pub open spec fn matches_category(id: Seq<char>, c: Category) -> bool {
    (category_path(c) + seq!['/']).is_prefix_of(id)
}

/// Whether `c` is the category with the longest path that `id` begins with.
pub open spec fn longest_match(id: Seq<char>, c: Category) -> bool {
    &&& matches_category(id, c)
    &&& forall|d: Category| #[trigger] matches_category(id, d)
        ==> category_path(d).len() <= category_path(c).len()
}

/// What follows the path of `c` and the slash in `id`.
pub open spec fn name_after(id: Seq<char>, c: Category) -> Seq<char> {
    id.subrange(category_path(c).len() + 1 as int, id.len() as int)
}

/// Every category, in a fixed order.
pub open spec fn all_categories() -> Seq<Category> {
    seq![
        Category::FineFill,
        Category::FineStrip,
        Category::FinePack,
        Category::FineGradient,
        Category::FineImage,
        Category::FineRoundedBlurredRect,
        Category::FineBlend,
        Category::Tile,
        Category::Flatten,
        Category::Strokes,
        Category::RenderStrips,
        Category::Glyph,
        Category::Integration,
    ]
}

proof fn lemma_all_categories_listed(c: Category)
    ensures
        all_categories().contains(c),
{
    let s = all_categories();
    match c {
        Category::FineFill => assert(s[0] == c),
        Category::FineStrip => assert(s[1] == c),
        Category::FinePack => assert(s[2] == c),
        Category::FineGradient => assert(s[3] == c),
        Category::FineImage => assert(s[4] == c),
        Category::FineRoundedBlurredRect => assert(s[5] == c),
        Category::FineBlend => assert(s[6] == c),
        Category::Tile => assert(s[7] == c),
        Category::Flatten => assert(s[8] == c),
        Category::Strokes => assert(s[9] == c),
        Category::RenderStrips => assert(s[10] == c),
        Category::Glyph => assert(s[11] == c),
        Category::Integration => assert(s[12] == c),
    }
}

/// No category path followed by a slash begins the identifier of a
/// benchmark of another category.
proof fn lemma_paths_prefix_free(c: Category, d: Category, n: Seq<char>)
    requires
        matches_category(id_of(c, n), d),
    ensures
        d == c,
{
    reveal_strlit("fine/fill");
    reveal_strlit("fine/strip");
    reveal_strlit("fine/pack");
    reveal_strlit("fine/gradient");
    reveal_strlit("fine/image");
    reveal_strlit("fine/rounded_blurred_rect");
    reveal_strlit("fine/blend");
    reveal_strlit("tile");
    reveal_strlit("flatten");
    reveal_strlit("strokes");
    reveal_strlit("render_strips");
    reveal_strlit("glyph");
    reveal_strlit("integration");
    let s = id_of(c, n);
    let p = category_path(d) + seq!['/'];
    let pc = category_path(c);
    let pd = category_path(d);
    assert(pc.len() >= 4 && pd.len() >= 4);
    assert(s.subrange(0, p.len() as int) == p);
    assert(s[0] == p[0] && s[1] == p[1]);
    assert(s[0] == pc[0] && s[1] == pc[1]);
    assert(p[0] == pd[0] && p[1] == pd[1]);
    if pd.len() > 5 && pc.len() > 5 {
        assert(s[5] == p[5]);
        assert(s[5] == pc[5]);
        assert(p[5] == pd[5]);
    }
}

/// The identifier of a benchmark names its category as the unique longest
/// match, and its name as what follows.
pub proof fn lemma_id_parses_back(c: Category, n: Seq<char>)
    ensures
        longest_match(id_of(c, n), c),
        forall|d: Category| #[trigger] longest_match(id_of(c, n), d) ==> d == c,
        name_after(id_of(c, n), c) == n,
{
    let id = id_of(c, n);
    assert(id.subrange(0, category_path(c).len() + 1 as int) =~= category_path(c) + seq!['/']);
    assert(name_after(id, c) =~= n);
    assert forall|d: Category| #[trigger] matches_category(id, d)
        implies category_path(d).len() <= category_path(c).len() by {
        lemma_paths_prefix_free(c, d, n);
    }
    assert forall|d: Category| #[trigger] longest_match(id, d) implies d == c by {
        lemma_paths_prefix_free(c, d, n);
    }
}

/// Whether a listing entry is the entry of one of the names of some
/// category: one of its fixed names, or an asset for a data-driven one.
pub open spec fn listed_entry(e: InfoView, assets: Seq<Seq<char>>) -> bool {
    exists|c: Category| #[trigger] info_of(c, e.name) == e && names_of(c, assets).contains(e.name)
}

/// The names a category's benchmarks take: its fixed table, or the assets.
pub open spec fn names_of(c: Category, assets: Seq<Seq<char>>) -> Seq<Seq<char>> {
    if is_data_driven(c) {
        assets
    } else {
        fixed_names(c)
    }
}

proof fn lemma_fixed_listing_entries(k: nat, assets: Seq<Seq<char>>)
    requires
        k <= 9,
    ensures
        forall|i: int| 0 <= i < fixed_listing(k).len()
            ==> listed_entry(#[trigger] fixed_listing(k)[i], assets),
    decreases k,
{
    if k > 0 {
        lemma_fixed_listing_entries((k - 1) as nat, assets);
        let c = fixed_categories()[k - 1];
        assert(!is_data_driven(c));
        let prev = fixed_listing((k - 1) as nat);
        assert forall|i: int| 0 <= i < fixed_listing(k).len()
            implies listed_entry(#[trigger] fixed_listing(k)[i], assets) by {
            if i >= prev.len() {
                let e = fixed_listing(k)[i];
                let j = i - prev.len();
                assert(e == info_of(c, fixed_names(c)[j]));
                assert(info_of(c, e.name) == e);
                assert(names_of(c, assets)[j] == e.name);
            } else {
                assert(fixed_listing(k)[i] == prev[i]);
            }
        }
    }
}

proof fn lemma_data_listing_entries(assets: Seq<Seq<char>>, all: Seq<Seq<char>>)
    requires
        assets.len() <= all.len(),
        assets == all.subrange(0, assets.len() as int),
    ensures
        forall|i: int| 0 <= i < data_listing(assets).len()
            ==> listed_entry(#[trigger] data_listing(assets)[i], all),
    decreases assets.len(),
{
    if assets.len() > 0 {
        assert(assets.drop_last() =~= all.subrange(0, assets.len() - 1));
        lemma_data_listing_entries(assets.drop_last(), all);
        let prev = data_listing(assets.drop_last());
        let a = assets.last();
        assert(all[assets.len() - 1] == a);
        assert forall|i: int| 0 <= i < data_listing(assets).len()
            implies listed_entry(#[trigger] data_listing(assets)[i], all) by {
            if i >= prev.len() {
                let e = data_listing(assets)[i];
                let c = data_categories()[i - prev.len()];
                assert(e == info_of(c, a));
                assert(info_of(c, e.name) == e);
                assert(is_data_driven(c));
                assert(names_of(c, all)[assets.len() - 1] == e.name);
            } else {
                assert(data_listing(assets)[i] == prev[i]);
            }
        }
    }
}

/// Every entry of the catalogue is the entry of one of its category's names.
pub proof fn lemma_catalogue_entries_listed(assets: Seq<Seq<char>>, i: int)
    requires
        0 <= i < catalogue(assets).len(),
    ensures
        listed_entry(catalogue(assets)[i], assets),
{
    lemma_fixed_listing_entries(9, assets);
    assert(assets.subrange(0, assets.len() as int) =~= assets);
    lemma_data_listing_entries(assets, assets);
    let f = fixed_listing(9);
    if i < f.len() {
        assert(catalogue(assets)[i] == f[i]);
    } else {
        assert(catalogue(assets)[i] == data_listing(assets)[i - f.len()]);
    }
}

proof fn lemma_fixed_prefix(k: nat, m: nat)
    requires
        k <= m <= 9,
    ensures
        fixed_listing(k).len() <= fixed_listing(m).len(),
        forall|i: int| 0 <= i < fixed_listing(k).len() ==> #[trigger] fixed_listing(m)[i] == fixed_listing(k)[i],
    decreases m - k,
{
    if k < m {
        lemma_fixed_prefix(k, (m - 1) as nat);
        let prev = fixed_listing((m - 1) as nat);
        assert forall|i: int| 0 <= i < fixed_listing(k).len()
            implies #[trigger] fixed_listing(m)[i] == fixed_listing(k)[i] by {
            assert(fixed_listing(m)[i] == prev[i]);
        }
    }
}

proof fn lemma_data_prefix(assets: Seq<Seq<char>>, a: nat)
    requires
        a <= assets.len(),
    ensures
        data_listing(assets.subrange(0, a as int)).len() <= data_listing(assets).len(),
        forall|i: int| 0 <= i < data_listing(assets.subrange(0, a as int)).len()
            ==> #[trigger] data_listing(assets)[i] == data_listing(assets.subrange(0, a as int))[i],
    decreases assets.len() - a,
{
    if a == assets.len() {
        assert(assets.subrange(0, a as int) =~= assets);
    } else {
        let d = assets.drop_last();
        assert(d.subrange(0, a as int) =~= assets.subrange(0, a as int));
        lemma_data_prefix(d, a);
        let sub = data_listing(assets.subrange(0, a as int));
        assert forall|i: int| 0 <= i < sub.len()
            implies #[trigger] data_listing(assets)[i] == sub[i] by {
            assert(data_listing(assets)[i] == data_listing(d)[i]);
        }
    }
}

/// Every name of a category has its entry in the catalogue.
pub proof fn lemma_named_is_listed(c: Category, n: Seq<char>, assets: Seq<Seq<char>>)
    requires
        names_of(c, assets).contains(n),
    ensures
        exists|i: int| 0 <= i < catalogue(assets).len() && #[trigger] catalogue(assets)[i] == info_of(c, n),
{
    let names = names_of(c, assets);
    let j = choose|j: int| 0 <= j < names.len() && names[j] == n;
    let f = fixed_listing(9);
    if is_data_driven(c) {
        let sub = assets.subrange(0, j + 1);
        assert(sub.drop_last() =~= assets.subrange(0, j));
        assert(sub.last() == n);
        let prev = data_listing(sub.drop_last());
        let off: int = match c {
            Category::Tile => 0,
            Category::Flatten => 1,
            Category::Strokes => 2,
            _ => 3,
        };
        assert(data_categories()[off] == c);
        assert(data_listing(sub)[prev.len() + off] == info_of(c, n));
        lemma_data_prefix(assets, (j + 1) as nat);
        let i = f.len() + prev.len() + off;
        assert(catalogue(assets)[i] == data_listing(assets)[prev.len() + off]);
        assert(catalogue(assets)[i] == info_of(c, n));
    } else {
        let k: int = match c {
            Category::FineFill => 0,
            Category::FineGradient => 1,
            Category::FineImage => 2,
            Category::FinePack => 3,
            Category::FineStrip => 4,
            Category::FineRoundedBlurredRect => 5,
            Category::FineBlend => 6,
            Category::Glyph => 7,
            _ => 8,
        };
        assert(fixed_categories()[k] == c);
        let prev = fixed_listing(k as nat);
        assert(fixed_listing((k + 1) as nat) == prev + infos_of(c, fixed_names(c)));
        assert(fixed_listing((k + 1) as nat)[prev.len() + j] == info_of(c, n));
        lemma_fixed_prefix((k + 1) as nat, 9);
        let i = prev.len() + j;
        assert(catalogue(assets)[i] == f[i]);
        assert(catalogue(assets)[i] == info_of(c, n));
    }
}

/// The fixed names of a category are distinct.
proof fn lemma_fixed_names_distinct(c: Category)
    ensures
        forall|i: int, j: int| 0 <= i < j < fixed_names(c).len() ==> fixed_names(c)[i] != fixed_names(c)[j],
{
    let names = fixed_names(c);
    match c {
        Category::FineFill => {
            reveal_strlit("opaque_short");
            reveal_strlit("opaque_long");
            reveal_strlit("transparent_short");
            reveal_strlit("transparent_long");
        },
        Category::FineStrip => {
            reveal_strlit("solid_short");
            reveal_strlit("solid_long");
        },
        Category::FinePack => {
            reveal_strlit("block");
            reveal_strlit("regular");
        },
        Category::FineGradient => {
            reveal_strlit("linear_opaque");
            reveal_strlit("radial_opaque");
            reveal_strlit("sweep_opaque");
            reveal_strlit("many_stops");
            reveal_strlit("transparent");
        },
        Category::FineImage => {
            reveal_strlit("no_transform");
            reveal_strlit("scale");
            reveal_strlit("rotate");
            reveal_strlit("quality_low");
            reveal_strlit("quality_medium");
            reveal_strlit("quality_high");
            reveal_strlit("extend_pad");
            reveal_strlit("extend_repeat");
            reveal_strlit("extend_reflect");
        },
        Category::FineRoundedBlurredRect => {
            reveal_strlit("no_transform");
            reveal_strlit("with_transform");
        },
        Category::FineBlend => {
            reveal_strlit("normal");
            reveal_strlit("multiply");
            reveal_strlit("screen");
            reveal_strlit("overlay");
            reveal_strlit("darken");
            reveal_strlit("lighten");
            reveal_strlit("color_dodge");
            reveal_strlit("color_burn");
            reveal_strlit("hard_light");
            reveal_strlit("soft_light");
            reveal_strlit("difference");
            reveal_strlit("exclusion");
            reveal_strlit("hue");
            reveal_strlit("saturation");
            reveal_strlit("color");
            reveal_strlit("luminosity");
            reveal_strlit("src_over");
            reveal_strlit("src_in");
            reveal_strlit("dest_over");
            reveal_strlit("xor");
            assert(names =~= seq!["normal"@, "multiply"@, "screen"@, "overlay"@, "darken"@, "lighten"@, "color_dodge"@, "color_burn"@, "hard_light"@, "soft_light"@, "difference"@, "exclusion"@, "hue"@, "saturation"@, "color"@, "luminosity"@, "src_over"@, "src_in"@, "dest_over"@, "xor"@]);
        },
        Category::Glyph => {
            reveal_strlit("cached_hinted");
            reveal_strlit("uncached_hinted");
            reveal_strlit("cached_unhinted");
            reveal_strlit("uncached_unhinted");
            reveal_strlit("maintain");
        },
        Category::Integration => {
            reveal_strlit("images_overlapping");
        },
        _ => {},
    }
    assert forall|i: int, j: int| 0 <= i < j < names.len() implies names[i] != names[j] by {
        assert(names[i].len() >= 2 && names[j].len() >= 2);
        if names[i] == names[j] {
            assert(names[i].len() == names[j].len() && names[i][0] == names[j][0] && names[i][1] == names[j][1]);
        }
    }
}

/// The names of a category hold no slash, given asset names that hold none.
pub proof fn lemma_names_slash_free(c: Category, assets: Seq<Seq<char>>, k: int)
    requires
        valid_asset_names(assets),
        0 <= k < names_of(c, assets).len(),
    ensures
        !names_of(c, assets)[k].contains('/'),
{
    if !is_data_driven(c) {
        let names = fixed_names(c);
        match c {
            Category::FineFill => {
                reveal_strlit("opaque_short");
                reveal_strlit("opaque_long");
                reveal_strlit("transparent_short");
                reveal_strlit("transparent_long");
            },
            Category::FineStrip => {
                reveal_strlit("solid_short");
                reveal_strlit("solid_long");
            },
            Category::FinePack => {
                reveal_strlit("block");
                reveal_strlit("regular");
            },
            Category::FineGradient => {
                reveal_strlit("linear_opaque");
                reveal_strlit("radial_opaque");
                reveal_strlit("sweep_opaque");
                reveal_strlit("many_stops");
                reveal_strlit("transparent");
            },
            Category::FineImage => {
                reveal_strlit("no_transform");
                reveal_strlit("scale");
                reveal_strlit("rotate");
                reveal_strlit("quality_low");
                reveal_strlit("quality_medium");
                reveal_strlit("quality_high");
                reveal_strlit("extend_pad");
                reveal_strlit("extend_repeat");
                reveal_strlit("extend_reflect");
            },
            Category::FineRoundedBlurredRect => {
                reveal_strlit("no_transform");
                reveal_strlit("with_transform");
            },
            Category::FineBlend => {
                reveal_strlit("normal");
                reveal_strlit("multiply");
                reveal_strlit("screen");
                reveal_strlit("overlay");
                reveal_strlit("darken");
                reveal_strlit("lighten");
                reveal_strlit("color_dodge");
                reveal_strlit("color_burn");
                reveal_strlit("hard_light");
                reveal_strlit("soft_light");
                reveal_strlit("difference");
                reveal_strlit("exclusion");
                reveal_strlit("hue");
                reveal_strlit("saturation");
                reveal_strlit("color");
                reveal_strlit("luminosity");
                reveal_strlit("src_over");
                reveal_strlit("src_in");
                reveal_strlit("dest_over");
                reveal_strlit("xor");
                assert(names =~= seq!["normal"@, "multiply"@, "screen"@, "overlay"@, "darken"@, "lighten"@, "color_dodge"@, "color_burn"@, "hard_light"@, "soft_light"@, "difference"@, "exclusion"@, "hue"@, "saturation"@, "color"@, "luminosity"@, "src_over"@, "src_in"@, "dest_over"@, "xor"@]);
            },
            Category::Glyph => {
                reveal_strlit("cached_hinted");
                reveal_strlit("uncached_hinted");
                reveal_strlit("cached_unhinted");
                reveal_strlit("uncached_unhinted");
                reveal_strlit("maintain");
            },
            Category::Integration => {
                reveal_strlit("images_overlapping");
            },
            _ => {},
        }
        assert(names[k].len() >= 2);
        if names[k].contains('/') {
            let j = choose|j: int| 0 <= j < names[k].len() && names[k][j] == '/';
            assert(names[k][j] == '/');
        }
    }
}

/// Identifiers determine their category and name.
pub proof fn lemma_id_injective(c: Category, n: Seq<char>, d: Category, m: Seq<char>)
    requires
        id_of(c, n) == id_of(d, m),
    ensures
        c == d,
        n == m,
{
    let id = id_of(d, m);
    assert(id.subrange(0, category_path(d).len() + 1 as int) =~= category_path(d) + seq!['/']);
    lemma_paths_prefix_free(c, d, n);
    assert(n =~= id_of(c, n).subrange(category_path(c).len() + 1 as int, id_of(c, n).len() as int));
    assert(m =~= id.subrange(category_path(d).len() + 1 as int, id.len() as int));
}

/// Whether a listing entry belongs to one of the first `k` fixed categories.
spec fn is_fixed_entry(e: InfoView, k: nat) -> bool {
    exists|m: int| 0 <= m < k && #[trigger] info_of(fixed_categories()[m], e.name) == e
}

proof fn lemma_fixed_listing_distinct(k: nat)
    requires
        k <= 9,
    ensures
        forall|i: int| 0 <= i < fixed_listing(k).len() ==> is_fixed_entry(#[trigger] fixed_listing(k)[i], k),
        forall|i: int, j: int| 0 <= i < j < fixed_listing(k).len()
            ==> fixed_listing(k)[i].id != fixed_listing(k)[j].id,
    decreases k,
{
    if k > 0 {
        lemma_fixed_listing_distinct((k - 1) as nat);
        let c = fixed_categories()[k - 1];
        let prev = fixed_listing((k - 1) as nat);
        let cur = fixed_listing(k);
        lemma_fixed_names_distinct(c);
        assert forall|i: int| 0 <= i < cur.len() implies is_fixed_entry(#[trigger] cur[i], k) by {
            if i < prev.len() {
                assert(cur[i] == prev[i]);
                assert(is_fixed_entry(prev[i], (k - 1) as nat));
                let m = choose|m: int| 0 <= m < k - 1 && #[trigger] info_of(fixed_categories()[m], prev[i].name) == prev[i];
                assert(info_of(fixed_categories()[m], cur[i].name) == cur[i]);
            } else {
                let m: int = k - 1;
                assert(cur[i] == info_of(c, fixed_names(c)[i - prev.len()]));
                assert(info_of(fixed_categories()[m], cur[i].name) == cur[i]);
            }
        }
        assert forall|i: int, j: int| 0 <= i < j < cur.len() implies cur[i].id != cur[j].id by {
            if j >= prev.len() {
                let ej = cur[j];
                assert(ej == info_of(c, fixed_names(c)[j - prev.len()]));
                if i >= prev.len() {
                    let ei = cur[i];
                    assert(ei == info_of(c, fixed_names(c)[i - prev.len()]));
                    if ei.id == ej.id {
                        lemma_id_injective(c, ei.name, c, ej.name);
                    }
                } else {
                    let ei = prev[i];
                    assert(cur[i] == ei);
                    assert(is_fixed_entry(ei, (k - 1) as nat));
                    let m = choose|m: int| 0 <= m < k - 1 && #[trigger] info_of(fixed_categories()[m], ei.name) == ei;
                    if ei.id == ej.id {
                        lemma_id_injective(fixed_categories()[m], ei.name, c, ej.name);
                        assert(fixed_categories()[m] != fixed_categories()[k - 1]);
                    }
                }
            } else {
                assert(cur[i] == prev[i] && cur[j] == prev[j]);
            }
        }
    }
}

/// Whether a listing entry belongs to a data-driven category and an asset.
spec fn is_data_entry(e: InfoView, assets: Seq<Seq<char>>) -> bool {
    exists|q: int, a: int| 0 <= q < 4 && 0 <= a < assets.len()
        && #[trigger] info_of(data_categories()[q], assets[a]) == e
}

proof fn lemma_data_listing_distinct(assets: Seq<Seq<char>>)
    requires
        valid_asset_names(assets),
    ensures
        forall|i: int| 0 <= i < data_listing(assets).len() ==> is_data_entry(#[trigger] data_listing(assets)[i], assets),
        forall|i: int, j: int| 0 <= i < j < data_listing(assets).len()
            ==> data_listing(assets)[i].id != data_listing(assets)[j].id,
    decreases assets.len(),
{
    if assets.len() > 0 {
        let d = assets.drop_last();
        assert(valid_asset_names(d)) by {
            assert forall|i: int| 0 <= i < d.len() implies #[trigger] d[i].len() > 0 && !d[i].contains('/') by {
                assert(d[i] == assets[i]);
            }
        }
        lemma_data_listing_distinct(d);
        let prev = data_listing(d);
        let cur = data_listing(assets);
        let last = assets.last();
        assert forall|i: int| 0 <= i < cur.len() implies is_data_entry(#[trigger] cur[i], assets) by {
            if i < prev.len() {
                assert(cur[i] == prev[i]);
                assert(is_data_entry(prev[i], d));
                let (q, a) = choose|q: int, a: int| 0 <= q < 4 && 0 <= a < d.len()
                    && #[trigger] info_of(data_categories()[q], d[a]) == prev[i];
                assert(d[a] == assets[a]);
                assert(info_of(data_categories()[q], assets[a]) == cur[i]);
            } else {
                let q = i - prev.len();
                let a = assets.len() - 1;
                assert(cur[i] == info_of(data_categories()[q], assets[a]));
            }
        }
        assert forall|i: int, j: int| 0 <= i < j < cur.len() implies cur[i].id != cur[j].id by {
            if j >= prev.len() {
                let qj = j - prev.len();
                assert(cur[j] == info_of(data_categories()[qj], last));
                if i >= prev.len() {
                    let qi = i - prev.len();
                    assert(cur[i] == info_of(data_categories()[qi], last));
                    if cur[i].id == cur[j].id {
                        lemma_id_injective(data_categories()[qi], last, data_categories()[qj], last);
                    }
                } else {
                    assert(cur[i] == prev[i]);
                    assert(is_data_entry(prev[i], d));
                    let (q, a) = choose|q: int, a: int| 0 <= q < 4 && 0 <= a < d.len()
                        && #[trigger] info_of(data_categories()[q], d[a]) == prev[i];
                    if cur[i].id == cur[j].id {
                        lemma_id_injective(data_categories()[q], d[a], data_categories()[qj], last);
                        assert(d[a] == assets[a]);
                        assert(assets[a] != assets[assets.len() - 1]);
                    }
                }
            } else {
                assert(cur[i] == prev[i] && cur[j] == prev[j]);
            }
        }
    }
}

/// With valid asset names, no two listed benchmarks share an identifier.
pub proof fn lemma_catalogue_ids_distinct(assets: Seq<Seq<char>>)
    requires
        valid_asset_names(assets),
    ensures
        forall|i: int, j: int| 0 <= i < j < catalogue(assets).len()
            ==> catalogue(assets)[i].id != catalogue(assets)[j].id,
{
    lemma_fixed_listing_distinct(9);
    lemma_data_listing_distinct(assets);
    let f = fixed_listing(9);
    let dl = data_listing(assets);
    let cat = catalogue(assets);
    assert forall|i: int, j: int| 0 <= i < j < cat.len() implies cat[i].id != cat[j].id by {
        if j < f.len() {
            assert(cat[i] == f[i] && cat[j] == f[j]);
        } else if i >= f.len() {
            assert(cat[i] == dl[i - f.len()] && cat[j] == dl[j - f.len()]);
        } else {
            assert(cat[i] == f[i] && cat[j] == dl[j - f.len()]);
            assert(is_fixed_entry(f[i], 9));
            let m = choose|m: int| 0 <= m < 9 && #[trigger] info_of(fixed_categories()[m], f[i].name) == f[i];
            assert(is_data_entry(dl[j - f.len()], assets));
            let (q, a) = choose|q: int, a: int| 0 <= q < 4 && 0 <= a < assets.len()
                && #[trigger] info_of(data_categories()[q], assets[a]) == dl[j - f.len()];
            if cat[i].id == cat[j].id {
                lemma_id_injective(fixed_categories()[m], f[i].name, data_categories()[q], assets[a]);
                assert(!is_data_driven(fixed_categories()[m]));
                assert(is_data_driven(data_categories()[q]));
            }
        }
    }
}

/// Two categories with the same path are the same category.
pub proof fn lemma_path_injective(c: Category, d: Category)
    requires
        category_path(c) == category_path(d),
    ensures
        c == d,
{
    let id = id_of(c, Seq::empty());
    assert(id.subrange(0, category_path(d).len() + 1 as int) =~= category_path(d) + seq!['/']);
    lemma_paths_prefix_free(c, d, Seq::empty());
}

/// An identifier has at most one longest matching category.
pub proof fn lemma_longest_match_unique(id: Seq<char>, c: Category, d: Category)
    requires
        longest_match(id, c),
        longest_match(id, d),
    ensures
        c == d,
{
    let pc = category_path(c);
    let pd = category_path(d);
    assert(pc.len() == pd.len());
    assert forall|j: int| 0 <= j < pc.len() implies pc[j] == pd[j] by {
        assert((pc + seq!['/'])[j] == id[j]);
        assert((pd + seq!['/'])[j] == id[j]);
    }
    assert(pc =~= pd);
    lemma_path_injective(c, d);
}

/// Parsing the identifier of any listed benchmark by longest-prefix match
/// recovers its category and its name: the entry's category path belongs to
/// the unique longest matching category, and its name is what follows.
pub proof fn lemma_listed_ids_parse(assets: Seq<Seq<char>>, i: int)
    requires
        0 <= i < catalogue(assets).len(),
    ensures
        exists|c: Category| {
            &&& category_path(c) == catalogue(assets)[i].category
            &&& longest_match(catalogue(assets)[i].id, c)
            &&& name_after(catalogue(assets)[i].id, c) == catalogue(assets)[i].name
            &&& forall|d: Category| #[trigger] longest_match(catalogue(assets)[i].id, d) ==> d == c
        },
{
    lemma_catalogue_entries_listed(assets, i);
    let e = catalogue(assets)[i];
    let c = choose|c: Category| #[trigger] info_of(c, e.name) == e && names_of(c, assets).contains(e.name);
    lemma_id_parses_back(c, e.name);
}

/// Asset names fit for identifiers: non-empty, free of slashes, and
/// distinct.
pub open spec fn valid_asset_names(assets: Seq<Seq<char>>) -> bool {
    &&& forall|i: int| 0 <= i < assets.len() ==> #[trigger] assets[i].len() > 0 && !assets[i].contains('/')
    &&& forall|i: int, j: int| 0 <= i < j < assets.len() ==> assets[i] != assets[j]
}

/// Benchmark info for frontends.
#[derive(Clone, Debug)]
pub struct BenchmarkInfo {
    /// "{category}/{name}".
    pub id: String,
    /// Category path.
    pub category: String,
    /// Name within the category.
    pub name: String,
}

impl View for BenchmarkInfo {
    type V = InfoView;

    open spec fn view(&self) -> InfoView {
        InfoView { id: self.id@, category: self.category@, name: self.name@ }
    }
}

impl Category {
    /// Every category, in a fixed order.
    pub fn all() -> (r: Vec<Category>)
        ensures
            r@ == all_categories(),
    {
        let r = vec![
            Category::FineFill,
            Category::FineStrip,
            Category::FinePack,
            Category::FineGradient,
            Category::FineImage,
            Category::FineRoundedBlurredRect,
            Category::FineBlend,
            Category::Tile,
            Category::Flatten,
            Category::Strokes,
            Category::RenderStrips,
            Category::Glyph,
            Category::Integration,
        ];
        assert(r@ =~= all_categories());
        r
    }

    /// The taxonomy path of this category.
    pub fn path(&self) -> (r: &'static str)
        ensures
            r@ == category_path(*self),
    {
        match self {
            Category::FineFill => "fine/fill",
            Category::FineStrip => "fine/strip",
            Category::FinePack => "fine/pack",
            Category::FineGradient => "fine/gradient",
            Category::FineImage => "fine/image",
            Category::FineRoundedBlurredRect => "fine/rounded_blurred_rect",
            Category::FineBlend => "fine/blend",
            Category::Tile => "tile",
            Category::Flatten => "flatten",
            Category::Strokes => "strokes",
            Category::RenderStrips => "render_strips",
            Category::Glyph => "glyph",
            Category::Integration => "integration",
        }
    }

    /// The fixed name table of this category; empty for data-driven ones.
    pub fn names(&self) -> (r: Vec<&'static str>)
        ensures
            r@.len() == fixed_names(*self).len(),
            forall|i: int| 0 <= i < r@.len() ==> #[trigger] r@[i]@ == fixed_names(*self)[i],
    {
        let r: Vec<&'static str> = match self {
            Category::FineFill => vec![
                "opaque_short", "opaque_long", "transparent_short", "transparent_long",
            ],
            Category::FineStrip => vec!["solid_short", "solid_long"],
            Category::FinePack => vec!["block", "regular"],
            Category::FineGradient => vec![
                "linear_opaque", "radial_opaque", "sweep_opaque", "many_stops", "transparent",
            ],
            Category::FineImage => vec![
                "no_transform", "scale", "rotate", "quality_low", "quality_medium",
                "quality_high", "extend_pad", "extend_repeat", "extend_reflect",
            ],
            Category::FineRoundedBlurredRect => vec!["no_transform", "with_transform"],
            Category::FineBlend => vec![
                "normal", "multiply", "screen", "overlay", "darken", "lighten",
                "color_dodge", "color_burn", "hard_light", "soft_light", "difference",
                "exclusion", "hue", "saturation", "color", "luminosity",
                "src_over", "src_in", "dest_over", "xor",
            ],
            Category::Glyph => vec![
                "cached_hinted", "uncached_hinted", "cached_unhinted", "uncached_unhinted",
                "maintain",
            ],
            Category::Integration => vec!["images_overlapping"],
            _ => Vec::new(),
        };
        proof {
            if *self == Category::FineBlend {
                assert(fixed_names(*self) =~= seq![
                    "normal"@, "multiply"@, "screen"@, "overlay"@, "darken"@, "lighten"@,
                    "color_dodge"@, "color_burn"@, "hard_light"@, "soft_light"@, "difference"@,
                    "exclusion"@, "hue"@, "saturation"@, "color"@, "luminosity"@,
                    "src_over"@, "src_in"@, "dest_over"@, "xor"@,
                ]);
            }
        }
        r
    }
}

/// The listing entry of `name` within category `c`.
fn make_info(c: Category, name: &str) -> (r: BenchmarkInfo)
    ensures
        r@ == info_of(c, name@),
{
    let path = c.path();
    let id = concat3(path, "/", name);
    proof {
        reveal_strlit("/");
        assert("/"@ =~= seq!['/']);
    }
    BenchmarkInfo { id, category: path.to_string(), name: name.to_string() }
}

/// Every benchmark, given the names of the assets that data-driven
/// categories expand over: the fixed categories first, in a fixed order,
/// then, for each asset, its tile, flatten, strokes and render_strips entries.
pub fn get_benchmark_list(assets: &Vec<String>) -> (r: Vec<BenchmarkInfo>)
    requires
        valid_asset_names(assets@.map_values(|a: String| a@)),
    ensures
        r@.len() == catalogue(assets@.map_values(|a: String| a@)).len(),
        forall|i: int| 0 <= i < r@.len()
            ==> #[trigger] r@[i]@ == catalogue(assets@.map_values(|a: String| a@))[i],
        forall|i: int, j: int| 0 <= i < j < r@.len() ==> r@[i].id@ != r@[j].id@,
{
    proof {
        lemma_catalogue_ids_distinct(assets@.map_values(|a: String| a@));
    }
    let fixed: Vec<Category> = vec![
        Category::FineFill,
        Category::FineGradient,
        Category::FineImage,
        Category::FinePack,
        Category::FineStrip,
        Category::FineRoundedBlurredRect,
        Category::FineBlend,
        Category::Glyph,
        Category::Integration,
    ];
    assert(fixed@ =~= fixed_categories());
    let mut out: Vec<BenchmarkInfo> = Vec::new();
    let mut k: usize = 0;
    while k < fixed.len()
        invariant
            fixed@ == fixed_categories(),
            k <= fixed@.len(),
            out@.len() == fixed_listing(k as nat).len(),
            forall|i: int| 0 <= i < out@.len() ==> #[trigger] out@[i]@ == fixed_listing(k as nat)[i],
        decreases fixed@.len() - k,
    {
        let c = fixed[k];
        let names = c.names();
        let ghost before = out@;
        let mut j: usize = 0;
        while j < names.len()
            invariant
                j <= names@.len(),
                names@.len() == fixed_names(c).len(),
                forall|i: int| 0 <= i < names@.len() ==> #[trigger] names@[i]@ == fixed_names(c)[i],
                out@.len() == before.len() + j,
                forall|i: int| 0 <= i < before.len() ==> #[trigger] out@[i] == before[i],
                forall|i: int| 0 <= i < j ==> #[trigger] out@[before.len() + i]@ == info_of(c, fixed_names(c)[i]),
            decreases names@.len() - j,
        {
            let info = make_info(c, names[j]);
            out.push(info);
            j = j + 1;
        }
        assert(fixed_listing((k + 1) as nat) == fixed_listing(k as nat) + infos_of(c, fixed_names(c)));
        assert forall|i: int| 0 <= i < out@.len() implies #[trigger] out@[i]@ == fixed_listing((k + 1) as nat)[i] by {
            if i >= before.len() {
                assert(out@[before.len() + (i - before.len())] == out@[i]);
            }
        }
        k = k + 1;
    }
    let ghost names_view = assets@.map_values(|a: String| a@);
    let ghost fixed_part = out@;
    assert(catalogue(names_view) == fixed_listing(9) + data_listing(names_view));
    let data: Vec<Category> = vec![Category::Tile, Category::Flatten, Category::Strokes, Category::RenderStrips];
    assert(data@ =~= data_categories());
    let mut a: usize = 0;
    while a < assets.len()
        invariant
            data@ == data_categories(),
            a <= assets@.len(),
            names_view == assets@.map_values(|a: String| a@),
            fixed_part.len() == fixed_listing(9).len(),
            forall|i: int| 0 <= i < fixed_part.len() ==> #[trigger] fixed_part[i]@ == fixed_listing(9)[i],
            out@.len() == fixed_part.len() + data_listing(names_view.subrange(0, a as int)).len(),
            forall|i: int| 0 <= i < fixed_part.len() ==> #[trigger] out@[i] == fixed_part[i],
            forall|i: int| 0 <= i < data_listing(names_view.subrange(0, a as int)).len()
                ==> #[trigger] out@[fixed_part.len() + i]@ == data_listing(names_view.subrange(0, a as int))[i],
        decreases assets@.len() - a,
    {
        let ghost before = out@;
        let ghost prev = data_listing(names_view.subrange(0, a as int));
        let mut j: usize = 0;
        while j < data.len()
            invariant
                data@ == data_categories(),
                a < assets@.len(),
                names_view == assets@.map_values(|a: String| a@),
                j <= 4,
                out@.len() == before.len() + j,
                forall|i: int| 0 <= i < before.len() ==> #[trigger] out@[i] == before[i],
                forall|i: int| 0 <= i < j
                    ==> #[trigger] out@[before.len() + i]@ == info_of(data_categories()[i], names_view[a as int]),
            decreases 4 - j,
        {
            let info = make_info(data[j], assets[a].as_str());
            out.push(info);
            j = j + 1;
        }
        let ghost sub = names_view.subrange(0, a + 1);
        assert(sub.drop_last() =~= names_view.subrange(0, a as int));
        assert(sub.last() == names_view[a as int]);
        assert(data_listing(sub) == prev + Seq::new(4, |j: int| info_of(data_categories()[j], names_view[a as int])));
        assert forall|i: int| 0 <= i < data_listing(sub).len()
            implies #[trigger] out@[fixed_part.len() + i]@ == data_listing(sub)[i] by {
            if i >= prev.len() {
                assert(out@[before.len() + (i - prev.len())] == out@[fixed_part.len() + i]);
            } else {
                assert(out@[fixed_part.len() + i] == before[fixed_part.len() + i]);
            }
        }
        a = a + 1;
    }
    assert(names_view.subrange(0, assets@.len() as int) =~= names_view);
    assert forall|i: int| 0 <= i < out@.len() implies #[trigger] out@[i]@ == catalogue(names_view)[i] by {
        if i >= fixed_part.len() {
            assert(out@[fixed_part.len() + (i - fixed_part.len())] == out@[i]);
        }
    }
    assert forall|i: int, j: int| 0 <= i < j < out@.len() implies out@[i].id@ != out@[j].id@ by {
        assert(out@[i]@ == catalogue(names_view)[i]);
        assert(out@[j]@ == catalogue(names_view)[j]);
    }
    out
}

/// Whether asset names are fit for identifiers; see `valid_asset_names`.
pub fn asset_names_valid(assets: &Vec<String>) -> (r: bool)
    ensures
        r == valid_asset_names(assets@.map_values(|a: String| a@)),
{
    let ghost av = assets@.map_values(|a: String| a@);
    let mut i: usize = 0;
    while i < assets.len()
        invariant
            av == assets@.map_values(|a: String| a@),
            i <= assets@.len(),
            forall|k: int| 0 <= k < i ==> #[trigger] av[k].len() > 0 && !av[k].contains('/'),
            forall|k: int, j: int| 0 <= k < j < i ==> av[k] != av[j],
        decreases assets@.len() - i,
    {
        let a = assets[i].as_str();
        assert(a@ == av[i as int]);
        if a.unicode_len() == 0 {
            assert(!(av[i as int].len() > 0));
            return false;
        }
        match last_index_of(a, '/') {
            Some(k) => {
                assert(av[i as int][k as int] == '/');
                return false;
            },
            None => {},
        }
        let mut j: usize = 0;
        while j < i
            invariant
                av == assets@.map_values(|a: String| a@),
                j <= i,
                i < assets@.len(),
                a@ == av[i as int],
                forall|k: int| 0 <= k < j ==> av[k] != av[i as int],
            decreases i - j,
        {
            if str_eq(assets[j].as_str(), a) {
                assert(av[j as int] == av[i as int]);
                return false;
            }
            j = j + 1;
        }
        i = i + 1;
    }
    true
}

/// Splits an identifier into the category with the longest path that it
/// begins with (followed by a slash) and the name that follows; `None` where
/// no category matches.
pub fn parse_id(id: &str) -> (r: Option<(Category, String)>)
    ensures
        r is None <==> (forall|c: Category| !matches_category(id@, c)),
        r matches Some((c, n)) ==> longest_match(id@, c) && n@ == name_after(id@, c),
{
    let all = Category::all();
    let mut best: Option<Category> = None;
    let mut best_len: usize = 0;
    let mut i: usize = 0;
    while i < all.len()
        invariant
            all@ == all_categories(),
            i <= all@.len(),
            best is None ==> forall|j: int| 0 <= j < i ==> !matches_category(id@, #[trigger] all@[j]),
            best matches Some(c) ==> matches_category(id@, c) && best_len == category_path(c).len()
                && forall|j: int| 0 <= j < i && matches_category(id@, #[trigger] all@[j])
                    ==> category_path(all@[j]).len() <= best_len,
        decreases all@.len() - i,
    {
        let c = all[i];
        let p = c.path();
        if starts_with_then(id, p, '/') {
            let len = p.unicode_len();
            if best.is_none() || len > best_len {
                best = Some(c);
                best_len = len;
            }
        }
        i = i + 1;
    }
    match best {
        None => {
            assert forall|c: Category| !matches_category(id@, c) by {
                lemma_all_categories_listed(c);
            }
            None
        },
        Some(c) => {
            assert forall|d: Category| #[trigger] matches_category(id@, d)
                implies category_path(d).len() <= category_path(c).len() by {
                lemma_all_categories_listed(d);
            }
            let total = id.unicode_len();
            assert((category_path(c) + seq!['/']).len() <= id@.len());
            let start = best_len + 1;
            let name = id.substring_char(start, total);
            Some((c, name.to_string()))
        },
    }
}

} // verus!
