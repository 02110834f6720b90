//! The single entry point of frontends: from an identifier to a workload,
//! and from a workload to a labelled result.

use vstd::prelude::*;
use crate::catalogue::{
    Category, category_path, catalogue, info_of, longest_match, name_after,
    names_of, parse_id, lemma_catalogue_entries_listed, lemma_id_parses_back,
    lemma_longest_match_unique, lemma_named_is_listed, matches_category, id_of,
    valid_asset_names,
};
use crate::result::BenchmarkResult;
use crate::runner::{BenchRunner, always_callable, labelled_result};
use crate::simd::{HostFeatures, SimdLevel, level_used, suffix_of};
use crate::workload::{
    Workload, workload_for, workload_named, lemma_listed_has_first_index, is_first_index,
};

verus! {

/// An identifier taken apart.
#[derive(Clone, Debug)]
pub struct Resolved {
    /// The category with the longest matching path.
    pub category: Category,
    /// What follows the category path and the slash.
    pub name: String,
    /// What the benchmark measures.
    pub workload: Workload,
}

/// Whether `id` names a benchmark: its longest matching category has a
/// benchmark of the name that follows.
pub open spec fn resolvable(id: Seq<char>, assets: Seq<Seq<char>>) -> bool {
    exists|c: Category| #[trigger] longest_match(id, c)
        && workload_named(c, name_after(id, c), assets) is Some
}

/// Takes an identifier apart by longest-prefix match and looks up the
/// workload of its name; `None` exactly where it names no benchmark.
pub fn resolve(id: &str, assets: &Vec<String>) -> (r: Option<Resolved>)
    requires
        valid_asset_names(assets@.map_values(|s: String| s@)),
    ensures
        r is Some <==> resolvable(id@, assets@.map_values(|s: String| s@)),
        r matches Some(x) ==> {
            &&& longest_match(id@, x.category)
            &&& x.name@ == name_after(id@, x.category)
            &&& workload_named(x.category, x.name@, assets@.map_values(|s: String| s@))
                == Some(x.workload)
        },
{
    let ghost av = assets@.map_values(|s: String| s@);
    match parse_id(id) {
        None => None,
        Some((category, name)) => match workload_for(category, name.as_str(), assets) {
            Some(workload) => Some(Resolved { category, name, workload }),
            None => {
                proof {
                    assert forall|c: Category| #[trigger] longest_match(id@, c)
                        implies workload_named(c, name_after(id@, c), av) is None by {
                        lemma_longest_match_unique(id@, c, category);
                    }
                }
                None
            },
        },
    }
}

/// Builds the closure that realises a workload at a SIMD level. Building
/// happens before any timing; only calls of the closure are timed.
pub trait WorkloadFactory {
    /// The prepared workload.
    type Work: FnMut();

    /// Prepares `workload` for the kernel variant of `level`, a level the
    /// host offers.
    fn prepare(&self, workload: &Workload, level: SimdLevel) -> Self::Work;
}

/// Runs the benchmark `id` at `level` on `host`, or returns `None` exactly
/// where `id` names no benchmark. A level the host lacks is replaced by the
/// best one it has; the workload is prepared for the level that runs, and
/// the result carries `id`, the category and name it parses into, and the
/// suffix of the level that ran.
pub fn run_benchmark_by_id<K: WorkloadFactory>(
    runner: &BenchRunner,
    id: &str,
    level: SimdLevel,
    host: HostFeatures,
    assets: &Vec<String>,
    factory: &K,
) -> (r: Option<BenchmarkResult>)
    requires
        always_callable::<K::Work>(),
        valid_asset_names(assets@.map_values(|s: String| s@)),
    ensures
        r is Some <==> resolvable(id@, assets@.map_values(|s: String| s@)),
        r matches Some(res) ==> exists|c: Category| {
            &&& #[trigger] longest_match(id@, c)
            &&& labelled_result(
                res,
                *runner,
                id@,
                category_path(c),
                name_after(id@, c),
                suffix_of(level_used(host, level)),
            )
        },
{
    match resolve(id, assets) {
        None => None,
        Some(x) => {
            let used = level.used_on(host);
            let work = factory.prepare(&x.workload, used);
            let result = runner.run(id, x.category.path(), x.name.as_str(), used.suffix(), work);
            Some(result)
        },
    }
}

/// Every listed benchmark can be run by its identifier, and the result of
/// running it carries the entry's own category and name: the identifier's
/// longest matching category is the entry's, with the entry's name after it,
/// and that name has a workload.
pub proof fn lemma_listed_benchmarks_run(assets: Seq<Seq<char>>, i: int)
    requires
        0 <= i < catalogue(assets).len(),
    ensures
        resolvable(catalogue(assets)[i].id, assets),
        forall|c: Category| #[trigger] longest_match(catalogue(assets)[i].id, c) ==> {
            &&& category_path(c) == catalogue(assets)[i].category
            &&& name_after(catalogue(assets)[i].id, c) == catalogue(assets)[i].name
        },
{
    lemma_catalogue_entries_listed(assets, i);
    let e = catalogue(assets)[i];
    let c = choose|c: Category| #[trigger] info_of(c, e.name) == e && names_of(c, assets).contains(e.name);
    lemma_id_parses_back(c, e.name);
    let names = names_of(c, assets);
    let j = choose|j: int| 0 <= j < names.len() && names[j] == e.name;
    lemma_listed_has_first_index(names, e.name, j);
    assert(workload_named(c, name_after(e.id, c), assets) is Some);
}

/// An identifier names a benchmark exactly when it is the identifier of a
/// listed one; so running by identifier gives `None` exactly for the
/// identifiers the listing lacks.
pub proof fn lemma_resolvable_iff_listed(id: Seq<char>, assets: Seq<Seq<char>>)
    ensures
        resolvable(id, assets)
            <==> exists|i: int| 0 <= i < catalogue(assets).len() && #[trigger] catalogue(assets)[i].id == id,
{
    if resolvable(id, assets) {
        let c = choose|c: Category| #[trigger] longest_match(id, c)
            && workload_named(c, name_after(id, c), assets) is Some;
        let n = name_after(id, c);
        let names = names_of(c, assets);
        let j = choose|j: int| is_first_index(names, n, j);
        assert(names[j] == n);
        assert(id =~= id_of(c, n)) by {
            assert(matches_category(id, c));
            assert(id.subrange(0, category_path(c).len() + 1 as int) == category_path(c) + seq!['/']);
        }
        lemma_named_is_listed(c, n, assets);
        let i = choose|i: int| 0 <= i < catalogue(assets).len() && #[trigger] catalogue(assets)[i] == info_of(c, n);
        assert(catalogue(assets)[i].id == id);
    }
    if exists|i: int| 0 <= i < catalogue(assets).len() && #[trigger] catalogue(assets)[i].id == id {
        let i = choose|i: int| 0 <= i < catalogue(assets).len() && #[trigger] catalogue(assets)[i].id == id;
        lemma_listed_benchmarks_run(assets, i);
    }
}

} // verus!
