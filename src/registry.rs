//! Metadata read from a benchmark path that carries a SIMD variant suffix.

use vstd::prelude::*;
use vstd::string::*;
use crate::text::{
    ends_with, is_last_index_of, last_index_of, str_eq, starts_with_then, str_less, lex_less,
    lemma_lex_total,
};
use crate::result::BenchmarkResult;
use crate::catalogue::{
    Category, catalogue, category_path, info_of, names_of, valid_asset_names,
    lemma_catalogue_entries_listed, lemma_names_slash_free,
};
use crate::runner::BenchRunner;

verus! {

/// Metadata about a benchmark, read from its path.
#[derive(Clone, Debug)]
pub struct BenchmarkMetadata {
    /// The full path, such as "fine/fill/opaque_short_u8_neon".
    pub id: String,
    /// Everything before the last slash, such as "fine/fill".
    pub category: String,
    /// The last segment without its SIMD suffix, such as "opaque_short".
    pub name: String,
    /// The SIMD suffix without its underscore, such as "u8_neon", or
    /// "default" where none is known.
    pub simd_variant: String,
}

/// The SIMD suffixes a benchmark name may carry, tried in this order.
pub open spec fn variant_suffixes() -> Seq<Seq<char>> {
    seq![
        "_u8_neon"@, "_u8_avx2"@, "_u8_sse42"@, "_u8_wasm"@, "_u8_scalar"@,
        "_f32_neon"@, "_f32_avx2"@, "_f32_sse42"@, "_f32_wasm"@, "_f32_scalar"@,
        "_simd"@, "_scalar"@,
    ]
}

/// Base name and variant of `s`, trying the suffixes from position `i` on.
pub open spec fn name_variant_from(s: Seq<char>, i: nat) -> (Seq<char>, Seq<char>)
    decreases 12 - i,
{
    if i >= 12 {
        (s, "default"@)
    } else if variant_suffixes()[i as int].is_suffix_of(s) {
        let suf = variant_suffixes()[i as int];
        (s.subrange(0, s.len() - suf.len()), suf.drop_first())
    } else {
        name_variant_from(s, i + 1)
    }
}

/// Base name and variant of a benchmark name: the first known suffix that
/// ends it is split off, without its leading underscore; a name with no
/// known suffix has the variant "default".
pub open spec fn name_variant(s: Seq<char>) -> (Seq<char>, Seq<char>) {
    name_variant_from(s, 0)
}

/// Category and last segment of a path: split at the last slash, or an
/// empty category where there is none.
pub open spec fn split_path(s: Seq<char>) -> (Seq<char>, Seq<char>) {
    if exists|k: int| is_last_index_of(s, '/', k) {
        let k = choose|k: int| is_last_index_of(s, '/', k);
        (s.subrange(0, k), s.subrange(k + 1, s.len() as int))
    } else {
        (Seq::empty(), s)
    }
}

/// Splits a benchmark name into its base name and SIMD variant.
pub fn parse_name_variant(name_with_variant: &str) -> (r: (String, String))
    ensures
        (r.0@, r.1@) == name_variant(name_with_variant@),
{
    let suffixes: Vec<&str> = vec![
        "_u8_neon", "_u8_avx2", "_u8_sse42", "_u8_wasm", "_u8_scalar",
        "_f32_neon", "_f32_avx2", "_f32_sse42", "_f32_wasm", "_f32_scalar",
        "_simd", "_scalar",
    ];
    assert(suffixes@.map_values(|s: &str| s@) =~= variant_suffixes());
    let mut i: usize = 0;
    while i < suffixes.len()
        invariant
            suffixes@.len() == 12,
            forall|j: int| 0 <= j < 12 ==> #[trigger] suffixes@[j]@ == variant_suffixes()[j],
            i <= 12,
            name_variant(name_with_variant@) == name_variant_from(name_with_variant@, i as nat),
        decreases 12 - i,
    {
        let suf = suffixes[i];
        assert(suf@ == variant_suffixes()[i as int]);
        if ends_with(name_with_variant, suf) {
            let n = name_with_variant.unicode_len();
            let m = suf.unicode_len();
            proof {
                reveal_strlit("_u8_neon");
                reveal_strlit("_u8_avx2");
                reveal_strlit("_u8_sse42");
                reveal_strlit("_u8_wasm");
                reveal_strlit("_u8_scalar");
                reveal_strlit("_f32_neon");
                reveal_strlit("_f32_avx2");
                reveal_strlit("_f32_sse42");
                reveal_strlit("_f32_wasm");
                reveal_strlit("_f32_scalar");
                reveal_strlit("_simd");
                reveal_strlit("_scalar");
                assert(suf@.len() >= 1);
            }
            let base = name_with_variant.substring_char(0, n - m);
            let variant = suf.substring_char(1, m);
            assert(variant@ =~= suf@.drop_first());
            return (base.to_string(), variant.to_string());
        }
        i = i + 1;
    }
    (name_with_variant.to_string(), "default".to_string())
}

impl BenchmarkMetadata {
    /// Reads metadata from a path "category/.../name_variant": the category
    /// is everything before the last slash (empty where there is none), and
    /// the last segment is split by `parse_name_variant`.
    pub fn from_path(path: &str) -> (r: BenchmarkMetadata)
        ensures
            r.id@ == path@,
            r.category@ == split_path(path@).0,
            (r.name@, r.simd_variant@) == name_variant(split_path(path@).1),
    {
        let n = path.unicode_len();
        let (category, last) = match last_index_of(path, '/') {
            Some(k) => {
                proof {
                    let j = choose|j: int| is_last_index_of(path@, '/', j);
                    assert(j == k as int) by {
                        if j < k {
                            assert(path@[k as int] != '/');
                        }
                        if j > k {
                            assert(path@[j] != '/');
                        }
                    }
                }
                (path.substring_char(0, k), path.substring_char(k + 1, n))
            },
            None => {
                assert(path@.subrange(0, n as int) =~= path@);
                ("", path.substring_char(0, n))
            },
        };
        proof {
            reveal_strlit("");
        }
        let (name, simd_variant) = parse_name_variant(last);
        BenchmarkMetadata {
            id: path.to_string(),
            category: category.to_string(),
            name,
            simd_variant,
        }
    }
}

proof fn lemma_no_variant_from(s: Seq<char>, i: nat)
    requires
        i <= 12,
        forall|k: int| 0 <= k < 12 ==> !(#[trigger] variant_suffixes()[k]).is_suffix_of(s),
    ensures
        name_variant_from(s, i) == (s, "default"@),
    decreases 12 - i,
{
    if i < 12 {
        assert(!variant_suffixes()[i as int].is_suffix_of(s));
        lemma_no_variant_from(s, i + 1);
    }
}

/// Reading the identifier of a listed benchmark as a path gives back its
/// category and name, wherever the name ends in no SIMD suffix: names hold
/// no slash, so the last slash is the one after the category.
pub proof fn lemma_listed_paths_read_back(assets: Seq<Seq<char>>, i: int)
    requires
        valid_asset_names(assets),
        0 <= i < catalogue(assets).len(),
        forall|k: int| 0 <= k < 12 ==> !(#[trigger] variant_suffixes()[k]).is_suffix_of(catalogue(assets)[i].name),
    ensures
        metadata_of(catalogue(assets)[i].id).category == catalogue(assets)[i].category,
        metadata_of(catalogue(assets)[i].id).name == catalogue(assets)[i].name,
        metadata_of(catalogue(assets)[i].id).simd_variant == "default"@,
{
    let e = catalogue(assets)[i];
    lemma_catalogue_entries_listed(assets, i);
    let c = choose|c: Category| #[trigger] info_of(c, e.name) == e && names_of(c, assets).contains(e.name);
    let names = names_of(c, assets);
    let j = choose|j: int| 0 <= j < names.len() && names[j] == e.name;
    lemma_names_slash_free(c, assets, j);
    let n = e.name;
    let id = e.id;
    let k0 = category_path(c).len() as int;
    assert(id == category_path(c) + seq!['/'] + n);
    assert(id[k0] == '/');
    assert forall|j2: int| k0 < j2 < id.len() implies id[j2] != '/' by {
        assert(id[j2] == n[j2 - k0 - 1]);
    }
    assert(is_last_index_of(id, '/', k0));
    let k = choose|k: int| is_last_index_of(id, '/', k);
    assert(k == k0) by {
        if k < k0 {
            assert(id[k0] != '/');
        }
        if k > k0 {
            assert(id[k] != '/');
        }
    }
    assert(id.subrange(0, k0) =~= category_path(c));
    assert(id.subrange(k0 + 1, id.len() as int) =~= n);
    lemma_no_variant_from(n, 0);
}

/// Metadata as character sequences.
pub struct MetadataView {
    pub id: Seq<char>,
    pub category: Seq<char>,
    pub name: Seq<char>,
    pub simd_variant: Seq<char>,
}

impl View for BenchmarkMetadata {
    type V = MetadataView;

    open spec fn view(&self) -> MetadataView {
        MetadataView {
            id: self.id@,
            category: self.category@,
            name: self.name@,
            simd_variant: self.simd_variant@,
        }
    }
}

/// The metadata read from a path.
pub open spec fn metadata_of(path: Seq<char>) -> MetadataView {
    MetadataView {
        id: path,
        category: split_path(path).0,
        name: name_variant(split_path(path).1).0,
        simd_variant: name_variant(split_path(path).1).1,
    }
}

/// Whether `category` lies under `prefix`: equal, or below it after a slash.
pub open spec fn under_category(category: Seq<char>, prefix: Seq<char>) -> bool {
    category == prefix || (prefix + seq!['/']).is_prefix_of(category)
}

/// Positions of the entries that lie under `prefix`, in order.
pub open spec fn positions_under(s: Seq<MetadataView>, prefix: Seq<char>) -> Seq<int>
    decreases s.len(),
{
    if s.len() == 0 {
        Seq::empty()
    } else {
        let rest = positions_under(s.drop_last(), prefix);
        if under_category(s.last().category, prefix) {
            rest.push(s.len() - 1)
        } else {
            rest
        }
    }
}

impl BenchmarkMetadata {
    /// A field-by-field copy.
    pub fn duplicate(&self) -> (r: BenchmarkMetadata)
        ensures
            r@ == self@,
    {
        BenchmarkMetadata {
            id: self.id.clone(),
            category: self.category.clone(),
            name: self.name.clone(),
            simd_variant: self.simd_variant.clone(),
        }
    }
}

/// Whether some string of `v` holds the characters `x`.
pub open spec fn holds(v: Seq<String>, x: Seq<char>) -> bool {
    exists|i: int| 0 <= i < v.len() && #[trigger] v[i]@ == x
}

/// Whether each string of `v` comes strictly before the next.
pub open spec fn strictly_increasing(v: Seq<String>) -> bool {
    forall|i: int| 0 <= i < v.len() - 1 ==> lex_less(#[trigger] v[i]@, v[i + 1]@)
}

/// Inserts `c` into the increasing `v` unless it is there already.
fn insert_sorted(v: &mut Vec<String>, c: &str)
    requires
        strictly_increasing(old(v)@),
    ensures
        strictly_increasing(final(v)@),
        forall|x: Seq<char>| holds(final(v)@, x) <==> holds(old(v)@, x) || x == c@,
{
    let mut pos: usize = 0;
    while pos < v.len() && str_less(v[pos].as_str(), c)
        invariant
            v@ == old(v)@,
            pos <= v@.len(),
            forall|i: int| 0 <= i < pos ==> lex_less(#[trigger] v@[i]@, c@),
        decreases v@.len() - pos,
    {
        pos = pos + 1;
    }
    let ghost before = v@;
    if pos < v.len() && str_eq(v[pos].as_str(), c) {
        assert forall|x: Seq<char>| holds(v@, x) <==> holds(before, x) || x == c@ by {
            if x == c@ {
                assert(v@[pos as int]@ == x);
            }
        }
        return;
    }
    proof {
        if pos < before.len() {
            lemma_lex_total(before[pos as int]@, c@);
            assert(lex_less(c@, before[pos as int]@));
        }
    }
    v.insert(pos, c.to_string());
    assert(v@[pos as int]@ == c@);
    assert forall|i: int| 0 <= i < v@.len() - 1 implies lex_less(#[trigger] v@[i]@, v@[i + 1]@) by {
        if i < pos as int - 1 {
            assert(v@[i] == before[i] && v@[i + 1] == before[i + 1]);
        } else if i == pos as int - 1 {
            assert(v@[i] == before[i]);
        } else if i == pos as int {
            assert(v@[i + 1] == before[i]);
        } else {
            assert(v@[i] == before[i - 1] && v@[i + 1] == before[i]);
        }
    }
    assert forall|x: Seq<char>| holds(v@, x) <==> holds(before, x) || x == c@ by {
        if holds(v@, x) {
            let i = choose|i: int| 0 <= i < v@.len() && #[trigger] v@[i]@ == x;
            if i < pos {
                assert(before[i] == v@[i]);
            } else if i > pos {
                assert(before[i - 1] == v@[i]);
            }
        }
        if holds(before, x) {
            let i = choose|i: int| 0 <= i < before.len() && #[trigger] before[i]@ == x;
            if i < pos {
                assert(v@[i] == before[i]);
            } else {
                assert(v@[i + 1] == before[i]);
            }
        }
    }
}

/// Benchmarks registered by path, each with the function that runs it; a
/// path is registered at most once, in the order of first registration.
pub struct BenchmarkRegistry<F> {
    metadata: Vec<BenchmarkMetadata>,
    funcs: Vec<F>,
}

impl<F: Fn(&BenchRunner) -> BenchmarkResult> BenchmarkRegistry<F> {
    /// The registered metadata, in order.
    pub closed spec fn entries(&self) -> Seq<MetadataView> {
        self.metadata@.map_values(|m: BenchmarkMetadata| m@)
    }

    /// The registered functions, in the order of `entries`.
    pub closed spec fn functions(&self) -> Seq<F> {
        self.funcs@
    }

    /// Entries and functions line up, paths are unique, and each entry is
    /// what its path reads as.
    pub closed spec fn wf(&self) -> bool {
        &&& self.metadata@.len() == self.funcs@.len()
        &&& forall|i: int, j: int| 0 <= i < j < self.metadata@.len()
            ==> self.metadata@[i].id@ != self.metadata@[j].id@
        &&& forall|i: int| 0 <= i < self.metadata@.len()
            ==> #[trigger] self.metadata@[i]@ == metadata_of(self.metadata@[i].id@)
    }

    /// An empty registry.
    pub fn new() -> (r: Self)
        ensures
            r.wf(),
            r.entries().len() == 0,
    {
        BenchmarkRegistry { metadata: Vec::new(), funcs: Vec::new() }
    }

    /// Position of the entry registered under `id`.
    fn position(&self, id: &str) -> (r: Option<usize>)
        requires
            self.wf(),
        ensures
            r matches Some(k) ==> k < self.entries().len() && self.entries()[k as int].id == id@,
            r is None ==> forall|k: int| 0 <= k < self.entries().len() ==> self.entries()[k].id != id@,
    {
        let mut k: usize = 0;
        while k < self.metadata.len()
            invariant
                k <= self.metadata@.len(),
                forall|j: int| 0 <= j < k ==> self.metadata@[j].id@ != id@,
            decreases self.metadata@.len() - k,
        {
            if str_eq(self.metadata[k].id.as_str(), id) {
                return Some(k);
            }
            k = k + 1;
        }
        None
    }

    /// Registers `func` under `id`. A new path is appended; a path already
    /// registered keeps its place and gets the new function.
    pub fn register(&mut self, id: &str, func: F)
        requires
            old(self).wf(),
        ensures
            final(self).wf(),
            match old(self).position_spec(id@) {
                Some(k) => final(self).entries() == old(self).entries()
                    && final(self).functions() == old(self).functions().update(k, func),
                None => final(self).entries() == old(self).entries().push(metadata_of(id@))
                    && final(self).functions() == old(self).functions().push(func),
            },
    {
        match self.position(id) {
            Some(k) => {
                proof {
                    assert(self.position_spec(id@) == Some(k as int)) by {
                        if exists|j: int| 0 <= j < self.entries().len() && self.entries()[j].id == id@ && j != k {
                            let j = choose|j: int| 0 <= j < self.entries().len() && self.entries()[j].id == id@ && j != k;
                            assert(self.metadata@[j].id@ == self.metadata@[k as int].id@);
                        }
                    }
                }
                self.funcs.remove(k);
                self.funcs.insert(k, func);
                assert(self.funcs@ =~= old(self).funcs@.update(k as int, func));
            },
            None => {
                let meta = BenchmarkMetadata::from_path(id);
                assert(meta@ == metadata_of(id@));
                self.metadata.push(meta);
                self.funcs.push(func);
                assert(self.entries() =~= old(self).entries().push(metadata_of(id@)));
                assert forall|i: int, j: int| 0 <= i < j < self.metadata@.len()
                    implies self.metadata@[i].id@ != self.metadata@[j].id@ by {
                    if j == self.metadata@.len() - 1 {
                        assert(old(self).entries()[i].id != id@);
                    } else {
                        assert(old(self).metadata@[i] == self.metadata@[i]);
                        assert(old(self).metadata@[j] == self.metadata@[j]);
                    }
                }
                assert forall|i: int| 0 <= i < self.metadata@.len()
                    implies #[trigger] self.metadata@[i]@ == metadata_of(self.metadata@[i].id@) by {
                    if i < old(self).metadata@.len() {
                        assert(old(self).metadata@[i] == self.metadata@[i]);
                    }
                }
            },
        }
    }

    /// Position of `id` among the entries, if registered.
    pub closed spec fn position_spec(&self, id: Seq<char>) -> Option<int> {
        if exists|k: int| 0 <= k < self.entries().len() && self.entries()[k].id == id {
            Some(choose|k: int| 0 <= k < self.entries().len() && self.entries()[k].id == id)
        } else {
            None
        }
    }

    /// The registered metadata, in order of registration.
    pub fn list(&self) -> (r: Vec<&BenchmarkMetadata>)
        requires
            self.wf(),
        ensures
            r@.len() == self.entries().len(),
            forall|i: int| 0 <= i < r@.len() ==> #[trigger] r@[i]@ == self.entries()[i],
    {
        let mut out: Vec<&BenchmarkMetadata> = Vec::new();
        let mut i: usize = 0;
        while i < self.metadata.len()
            invariant
                i <= self.metadata@.len(),
                out@.len() == i,
                forall|j: int| 0 <= j < i ==> #[trigger] out@[j]@ == self.metadata@[j]@,
            decreases self.metadata@.len() - i,
        {
            out.push(&self.metadata[i]);
            i = i + 1;
        }
        out
    }

    /// The metadata of the entries under `category` (equal to it, or below
    /// it after a slash), in order of registration.
    pub fn list_by_category(&self, category: &str) -> (r: Vec<&BenchmarkMetadata>)
        requires
            self.wf(),
        ensures
            r@.len() == positions_under(self.entries(), category@).len(),
            forall|i: int| 0 <= i < r@.len()
                ==> #[trigger] r@[i]@ == self.entries()[positions_under(self.entries(), category@)[i]],
    {
        let mut out: Vec<&BenchmarkMetadata> = Vec::new();
        let mut i: usize = 0;
        let ghost all = self.entries();
        while i < self.metadata.len()
            invariant
                all == self.entries(),
                i <= self.metadata@.len(),
                out@.len() == positions_under(all.subrange(0, i as int), category@).len(),
                forall|j: int| 0 <= j < out@.len()
                    ==> #[trigger] out@[j]@ == all[positions_under(all.subrange(0, i as int), category@)[j]],
                forall|j: int| 0 <= j < positions_under(all.subrange(0, i as int), category@).len()
                    ==> 0 <= #[trigger] positions_under(all.subrange(0, i as int), category@)[j] < i,
            decreases self.metadata@.len() - i,
        {
            let m = &self.metadata[i];
            let ghost sub = all.subrange(0, i + 1);
            assert(sub.drop_last() =~= all.subrange(0, i as int));
            assert(sub.last() == all[i as int]);
            if str_eq(m.category.as_str(), category) || starts_with_then(m.category.as_str(), category, '/') {
                out.push(m);
            }
            i = i + 1;
        }
        assert(all.subrange(0, self.metadata@.len() as int) =~= all);
        out
    }

    /// The distinct categories, in increasing lexicographic order.
    pub fn categories(&self) -> (r: Vec<String>)
        requires
            self.wf(),
        ensures
            strictly_increasing(r@),
            forall|x: Seq<char>| holds(r@, x)
                <==> exists|j: int| 0 <= j < self.entries().len() && #[trigger] self.entries()[j].category == x,
    {
        let mut out: Vec<String> = Vec::new();
        let ghost all = self.entries();
        let mut k: usize = 0;
        while k < self.metadata.len()
            invariant
                all == self.entries(),
                k <= self.metadata@.len(),
                strictly_increasing(out@),
                forall|x: Seq<char>| holds(out@, x)
                    <==> exists|j: int| 0 <= j < k && #[trigger] all[j].category == x,
            decreases self.metadata@.len() - k,
        {
            let c = self.metadata[k].category.as_str();
            assert(c@ == all[k as int].category);
            insert_sorted(&mut out, c);
            assert forall|x: Seq<char>| holds(out@, x)
                <==> exists|j: int| 0 <= j < k + 1 && #[trigger] all[j].category == x by {
                if x == c@ {
                    assert(all[k as int].category == x);
                }
                if exists|j: int| 0 <= j < k + 1 && #[trigger] all[j].category == x {
                    let j = choose|j: int| 0 <= j < k + 1 && #[trigger] all[j].category == x;
                    if j < k {
                        assert(exists|j: int| 0 <= j < k && #[trigger] all[j].category == x);
                    }
                }
            }
            k = k + 1;
        }
        out
    }

    /// Runs the benchmark registered under `id`, if any.
    pub fn run(&self, id: &str, runner: &BenchRunner) -> (r: Option<BenchmarkResult>)
        requires
            self.wf(),
            forall|g: F| #[trigger] call_requires(g, (runner,)),
        ensures
            r is Some <==> self.position_spec(id@) is Some,
            r matches Some(res) ==> call_ensures(
                self.functions()[self.position_spec(id@)->0],
                (runner,),
                res,
            ),
    {
        match self.position(id) {
            Some(k) => {
                proof {
                    assert(self.position_spec(id@) == Some(k as int)) by {
                        if exists|j: int| 0 <= j < self.entries().len() && self.entries()[j].id == id@ && j != k {
                            let j = choose|j: int| 0 <= j < self.entries().len() && self.entries()[j].id == id@ && j != k;
                            assert(self.metadata@[j].id@ == self.metadata@[k as int].id@);
                        }
                    }
                }
                let f = &self.funcs[k];
                Some(f(runner))
            },
            None => None,
        }
    }

    /// Runs every registered benchmark, in order of registration.
    pub fn run_all(&self, runner: &BenchRunner) -> (r: Vec<BenchmarkResult>)
        requires
            self.wf(),
            forall|g: F| #[trigger] call_requires(g, (runner,)),
        ensures
            r@.len() == self.functions().len(),
            forall|i: int| 0 <= i < r@.len() ==> call_ensures(self.functions()[i], (runner,), #[trigger] r@[i]),
    {
        let mut out: Vec<BenchmarkResult> = Vec::new();
        let mut i: usize = 0;
        while i < self.funcs.len()
            invariant
                i <= self.funcs@.len(),
                out@.len() == i,
                forall|g: F| #[trigger] call_requires(g, (runner,)),
                forall|j: int| 0 <= j < i ==> call_ensures(self.funcs@[j], (runner,), #[trigger] out@[j]),
            decreases self.funcs@.len() - i,
        {
            let f = &self.funcs[i];
            out.push(f(runner));
            i = i + 1;
        }
        out
    }

    /// Runs the benchmarks under `category`, in order of registration.
    pub fn run_category(&self, category: &str, runner: &BenchRunner) -> (r: Vec<BenchmarkResult>)
        requires
            self.wf(),
            forall|g: F| #[trigger] call_requires(g, (runner,)),
        ensures
            r@.len() == positions_under(self.entries(), category@).len(),
            forall|i: int| 0 <= i < r@.len() ==> call_ensures(
                self.functions()[positions_under(self.entries(), category@)[i]],
                (runner,),
                #[trigger] r@[i],
            ),
    {
        let mut out: Vec<BenchmarkResult> = Vec::new();
        let mut i: usize = 0;
        let ghost all = self.entries();
        while i < self.metadata.len()
            invariant
                all == self.entries(),
                self.wf(),
                i <= self.metadata@.len(),
                forall|g: F| #[trigger] call_requires(g, (runner,)),
                out@.len() == positions_under(all.subrange(0, i as int), category@).len(),
                forall|j: int| 0 <= j < out@.len() ==> call_ensures(
                    self.funcs@[positions_under(all.subrange(0, i as int), category@)[j]],
                    (runner,),
                    #[trigger] out@[j],
                ),
            decreases self.metadata@.len() - i,
        {
            let m = &self.metadata[i];
            let ghost sub = all.subrange(0, i + 1);
            assert(sub.drop_last() =~= all.subrange(0, i as int));
            assert(sub.last() == all[i as int]);
            if str_eq(m.category.as_str(), category) || starts_with_then(m.category.as_str(), category, '/') {
                let f = &self.funcs[i];
                out.push(f(runner));
            }
            i = i + 1;
        }
        assert(all.subrange(0, self.metadata@.len() as int) =~= all);
        out
    }
}

/// The metadata of every benchmark in `registry`, in order of registration.
pub fn list_benchmarks<F: Fn(&BenchRunner) -> BenchmarkResult>(
    registry: &BenchmarkRegistry<F>,
) -> (r: Vec<BenchmarkMetadata>)
    requires
        registry.wf(),
    ensures
        r@.len() == registry.entries().len(),
        forall|i: int| 0 <= i < r@.len() ==> #[trigger] r@[i]@ == registry.entries()[i],
{
    let refs = registry.list();
    let mut out: Vec<BenchmarkMetadata> = Vec::new();
    let mut i: usize = 0;
    while i < refs.len()
        invariant
            i <= refs@.len(),
            refs@.len() == registry.entries().len(),
            forall|j: int| 0 <= j < refs@.len() ==> #[trigger] refs@[j]@ == registry.entries()[j],
            out@.len() == i,
            forall|j: int| 0 <= j < i ==> #[trigger] out@[j]@ == registry.entries()[j],
        decreases refs@.len() - i,
    {
        out.push(refs[i].duplicate());
        i = i + 1;
    }
    out
}

} // verus!
