//! Naming and listing rules of stored reference sets: which file a name is
//! stored under, which files are reference sets, and the order of the list.

use vstd::prelude::*;
use vstd::string::*;
use crate::result::{PlatformInfo, PlatformView};

verus! {

broadcast use {vstd::seq_lib::group_to_multiset_ensures, vstd::seq_lib::to_multiset_insert};

/// Whether a character may stand in a stored name.
pub open spec fn is_name_char(c: char) -> bool {
    ('A' <= c && c <= 'Z') || ('a' <= c && c <= 'z') || ('0' <= c && c <= '9') || c == '_'
        || c == '-'
}

/// A name with every character outside `[A-Za-z0-9_-]` replaced by `_`.
pub open spec fn sanitized(s: Seq<char>) -> Seq<char> {
    Seq::new(s.len(), |i: int| if is_name_char(s[i]) { s[i] } else { '_' })
}

/// Why a reference set cannot be stored.
#[derive(Clone, Copy, Debug, PartialEq, Eq, Structural)]
pub enum ReferenceError {
    /// The name is empty after sanitization.
    EmptyName,
}

/// Replaces every character outside `[A-Za-z0-9_-]` by `_`.
pub fn sanitize_name(name: &str) -> (r: String)
    ensures
        r@ == sanitized(name@),
        forall|i: int| 0 <= i < r@.len() ==> is_name_char(#[trigger] r@[i]),
{
    let n = name.unicode_len();
    let mut out = String::new();
    let mut i: usize = 0;
    proof {
        reveal_strlit("_");
    }
    while i < n
        invariant
            n == name@.len(),
            i <= n,
            out@ == sanitized(name@).subrange(0, i as int),
            "_"@ == seq!['_'],
        decreases n - i,
    {
        let c = name.get_char(i);
        if ('A' <= c && c <= 'Z') || ('a' <= c && c <= 'z') || ('0' <= c && c <= '9') || c == '_'
            || c == '-' {
            let one = name.substring_char(i, i + 1);
            assert(one@ =~= seq![c]);
            out.append(one);
        } else {
            out.append("_");
        }
        assert(out@ =~= sanitized(name@).subrange(0, i + 1));
        i = i + 1;
    }
    assert(out@ =~= sanitized(name@));
    out
}

/// The file a reference set of this name is stored in: the sanitized name
/// with the extension ".json". Fails, before anything touches the disk,
/// where the sanitized name is empty.
pub fn reference_file_name(name: &str) -> (r: Result<String, ReferenceError>)
    ensures
        r is Err <==> name@.len() == 0,
        r matches Err(e) ==> e == ReferenceError::EmptyName,
        r matches Ok(f) ==> f@ == sanitized(name@) + ".json"@,
{
    let stem = sanitize_name(name);
    if stem.as_str().unicode_len() == 0 {
        return Err(ReferenceError::EmptyName);
    }
    let mut file = stem;
    file.append(".json");
    Ok(file)
}

/// The stem of a file name whose extension is exactly "json", by the rule
/// of `std::path::Path`: the extension follows the last dot, and a dot that
/// begins the name starts no extension.
pub open spec fn json_stem(f: Seq<char>) -> Option<Seq<char>> {
    if f.len() >= 6 && f.subrange(f.len() - 5, f.len() as int) == ".json"@ {
        Some(f.subrange(0, f.len() - 5))
    } else {
        None
    }
}

/// The stem of a reference file name; `None` for other files.
pub fn reference_stem(file_name: &str) -> (r: Option<String>)
    ensures
        r is Some <==> json_stem(file_name@) is Some,
        r matches Some(s) ==> json_stem(file_name@) == Some(s@),
{
    let n = file_name.unicode_len();
    if n < 6 {
        return None;
    }
    let tail = file_name.substring_char(n - 5, n);
    if crate::text::str_eq(tail, ".json") {
        Some(file_name.substring_char(0, n - 5).to_string())
    } else {
        None
    }
}

/// A set stored under a non-empty name is listed again under its sanitized
/// name: the stored file's stem is that name.
pub proof fn lemma_stored_name_listed(name: Seq<char>)
    requires
        name.len() > 0,
    ensures
        json_stem(sanitized(name) + ".json"@) == Some(sanitized(name)),
{
    reveal_strlit(".json");
    let f = sanitized(name) + ".json"@;
    assert(f.subrange(f.len() - 5, f.len() as int) =~= ".json"@);
    assert(f.subrange(0, f.len() - 5) =~= sanitized(name));
}

/// What a stored reference file holds, where it could be read.
#[derive(Clone, Debug)]
pub struct ReferenceSummary {
    /// Number of results in the file.
    pub count: u64,
    /// Platform of the first result, if there is one.
    pub platform: Option<PlatformInfo>,
}

/// A file found in the references directory.
#[derive(Clone, Debug)]
pub struct ReferenceEntry {
    /// The file's name, with extension.
    pub file_name: String,
    /// The file's modified time in milliseconds since the epoch.
    pub modified_ms: u64,
    /// What the file holds; `None` where it could not be parsed.
    pub summary: Option<ReferenceSummary>,
}

/// A listed reference set.
#[derive(Clone, Debug)]
pub struct ReferenceInfo {
    /// The set's name, the file stem.
    pub name: String,
    /// The file's modified time in milliseconds since the epoch.
    pub created_at_ms: u64,
    /// Number of results; zero where the file could not be parsed.
    pub count: u64,
    /// Platform of the first result; absent where the file could not be
    /// parsed or holds no result.
    pub platform: Option<PlatformInfo>,
}

/// A listed reference set as plain values.
pub struct ReferenceInfoView {
    pub name: Seq<char>,
    pub created_at_ms: u64,
    pub count: u64,
    pub platform: Option<PlatformView>,
}

impl View for ReferenceInfo {
    type V = ReferenceInfoView;

    open spec fn view(&self) -> ReferenceInfoView {
        ReferenceInfoView {
            name: self.name@,
            created_at_ms: self.created_at_ms,
            count: self.count,
            platform: match self.platform {
                Some(p) => Some(p@),
                None => None,
            },
        }
    }
}

/// The listing of one file, where it is a reference file.
pub open spec fn info_of_entry(e: ReferenceEntry) -> Option<ReferenceInfoView> {
    match json_stem(e.file_name@) {
        None => None,
        Some(stem) => Some(ReferenceInfoView {
            name: stem,
            created_at_ms: e.modified_ms,
            count: match e.summary {
                Some(s) => s.count,
                None => 0,
            },
            platform: match e.summary {
                Some(s) => match s.platform {
                    Some(p) => Some(p@),
                    None => None,
                },
                None => None,
            },
        }),
    }
}

/// The listings of the reference files among `entries`, in their order.
pub open spec fn infos_of_entries(entries: Seq<ReferenceEntry>) -> Seq<ReferenceInfoView>
    decreases entries.len(),
{
    if entries.len() == 0 {
        Seq::empty()
    } else {
        let rest = infos_of_entries(entries.drop_last());
        match info_of_entry(entries.last()) {
            Some(i) => rest.push(i),
            None => rest,
        }
    }
}

/// Whether listings run from the newest to the oldest.
pub open spec fn newest_first(s: Seq<ReferenceInfoView>) -> bool {
    forall|i: int, j: int| 0 <= i < j < s.len() ==> s[i].created_at_ms >= s[j].created_at_ms
}

/// The views of a sequence of listings.
pub open spec fn views_of(s: Seq<ReferenceInfo>) -> Seq<ReferenceInfoView> {
    s.map_values(|r: ReferenceInfo| r@)
}

/// Lists the reference files among `entries`: each file named "*.json"
/// gives its stem, its modified time, and what it holds (zero results and
/// no platform where it could not be parsed). The list runs from the
/// newest to the oldest, and holds each reference file exactly once.
pub fn list_references(entries: Vec<ReferenceEntry>) -> (r: Vec<ReferenceInfo>)
    ensures
        newest_first(views_of(r@)),
        views_of(r@).to_multiset() == infos_of_entries(entries@).to_multiset(),
{
    let mut entries = entries;
    let ghost all = entries@;
    let mut out: Vec<ReferenceInfo> = Vec::new();
    assert(views_of(out@) =~= Seq::<ReferenceInfoView>::empty());
    assert(views_of(out@).to_multiset() =~= vstd::multiset::Multiset::empty()) by {
        assert(views_of(out@).to_multiset().len() == 0);
    }
    assert(all =~= all.subrange(0, entries@.len() as int));
    while entries.len() > 0
        invariant
            all.len() >= entries@.len(),
            entries@ == all.subrange(0, entries@.len() as int),
            newest_first(views_of(out@)),
            views_of(out@).to_multiset().add(infos_of_entries(entries@).to_multiset())
                == infos_of_entries(all).to_multiset(),
        decreases entries@.len(),
    {
        let ghost before = entries@;
        let e = entries.pop().unwrap();
        assert(entries@ =~= before.drop_last());
        assert(entries@ =~= all.subrange(0, entries@.len() as int));
        let stem = reference_stem(e.file_name.as_str());
        match stem {
            None => {
                assert(infos_of_entries(before) == infos_of_entries(entries@));
                assert(views_of(out@).to_multiset().add(infos_of_entries(entries@).to_multiset())
                    == infos_of_entries(all).to_multiset());
            },
            Some(name) => {
                let (count, platform) = match e.summary {
                    Some(s) => (s.count, s.platform),
                    None => (0, None),
                };
                let info = ReferenceInfo { name, created_at_ms: e.modified_ms, count, platform };
                assert(Some(info@) == info_of_entry(e));
                assert(infos_of_entries(before) == infos_of_entries(entries@).push(info@));
                let ghost old_views = views_of(out@);
                let ghost rest = infos_of_entries(entries@);
                assert(infos_of_entries(before).to_multiset() =~= rest.to_multiset().insert(info@));
                let mut pos: usize = 0;
                while pos < out.len() && out[pos].created_at_ms >= info.created_at_ms
                    invariant
                        pos <= out@.len(),
                        forall|k: int| 0 <= k < pos ==> out@[k].created_at_ms >= info.created_at_ms,
                    decreases out@.len() - pos,
                {
                    pos = pos + 1;
                }
                out.insert(pos, info);
                assert(views_of(out@) =~= old_views.insert(pos as int, info@));
                assert(views_of(out@).to_multiset() =~= old_views.to_multiset().insert(info@));
                assert(views_of(out@).to_multiset().add(rest.to_multiset())
                    =~= old_views.to_multiset().add(infos_of_entries(before).to_multiset()));
                assert(newest_first(views_of(out@))) by {
                    assert forall|i: int, j: int| 0 <= i < j < views_of(out@).len()
                        implies views_of(out@)[i].created_at_ms >= views_of(out@)[j].created_at_ms by {
                        if i < pos && j > pos {
                            assert(old_views[i].created_at_ms >= info.created_at_ms);
                            assert(old_views[j - 1].created_at_ms <= old_views[pos as int].created_at_ms || j - 1 == pos);
                        }
                        if i == pos && j > pos {
                            assert(old_views[pos as int].created_at_ms < info.created_at_ms);
                            assert(old_views[j - 1].created_at_ms <= old_views[pos as int].created_at_ms || j - 1 == pos);
                        }
                    }
                }
            },
        }
    }
    assert(infos_of_entries(entries@) =~= Seq::<ReferenceInfoView>::empty());
    assert(infos_of_entries(entries@).to_multiset() =~= vstd::multiset::Multiset::empty()) by {
        assert(infos_of_entries(entries@).to_multiset().len() == 0);
    }
    assert(views_of(out@).to_multiset() =~= views_of(out@).to_multiset().add(
        infos_of_entries(entries@).to_multiset()));
    out
}

} // verus!
