use vello_bench::references::{
    list_references, reference_file_name, reference_stem, sanitize_name, ReferenceEntry,
    ReferenceError, ReferenceSummary,
};
use vello_bench::result::PlatformInfo;

fn allowed(c: char) -> bool {
    c.is_ascii_alphanumeric() || c == '_' || c == '-'
}

#[test]
fn sanitize_keeps_allowed_characters() {
    assert_eq!(sanitize_name("run-A_2"), "run-A_2");
}

#[test]
fn sanitize_replaces_separators_and_controls() {
    assert_eq!(sanitize_name("a/b\\c\0d\ne\u{7f}f"), "a_b_c_d_e_f");
    assert_eq!(sanitize_name("caf\u{e9} ok"), "caf__ok");
    for name in ["../evil/name", "x\\y", "\0\0", "tab\there", "\u{1b}[0m"] {
        assert!(sanitize_name(name).chars().all(allowed));
    }
}

#[test]
fn escaping_name_stays_in_directory() {
    let f = reference_file_name("../evil/name").unwrap();
    assert_eq!(f, "___evil_name.json");
    let stem = f.strip_suffix(".json").unwrap();
    assert!(!stem.contains('/') && !stem.contains('.') && !stem.contains('\\'));
}

#[test]
fn empty_name_is_rejected() {
    assert_eq!(reference_file_name(""), Err(ReferenceError::EmptyName));
}

#[test]
fn file_name_of_plain_name() {
    assert_eq!(reference_file_name("run-A"), Ok("run-A.json".to_string()));
}

#[test]
fn stems_follow_path_rules() {
    assert_eq!(reference_stem("run-A.json"), Some("run-A".to_string()));
    assert_eq!(reference_stem("a.b.json"), Some("a.b".to_string()));
    assert_eq!(reference_stem(".json"), None);
    assert_eq!(reference_stem("x.jsonl"), None);
    assert_eq!(reference_stem("x.txt"), None);
    assert_eq!(reference_stem("json"), None);
}

#[test]
fn stored_name_is_listed_back() {
    for name in ["run-A", "../evil/name", "x y"] {
        let f = reference_file_name(name).unwrap();
        assert_eq!(reference_stem(&f), Some(sanitize_name(name)));
    }
}

fn platform() -> PlatformInfo {
    PlatformInfo { arch: "aarch64".to_string(), os: "macos".to_string(), simd_features: vec!["neon".to_string()] }
}

fn entry(file: &str, ms: u64, summary: Option<ReferenceSummary>) -> ReferenceEntry {
    ReferenceEntry { file_name: file.to_string(), modified_ms: ms, summary }
}

#[test]
fn listing_is_newest_first_and_skips_other_files() {
    let entries = vec![
        entry("old.json", 10, Some(ReferenceSummary { count: 2, platform: Some(platform()) })),
        entry("notes.txt", 50, None),
        entry("new.json", 30, Some(ReferenceSummary { count: 5, platform: None })),
        entry("broken.json", 20, None),
    ];
    let list = list_references(entries);
    let names: Vec<&str> = list.iter().map(|r| r.name.as_str()).collect();
    assert_eq!(names, vec!["new", "broken", "old"]);
    let times: Vec<u64> = list.iter().map(|r| r.created_at_ms).collect();
    assert_eq!(times, vec![30, 20, 10]);
    assert_eq!(list[0].count, 5);
    assert!(list[0].platform.is_none());
    assert_eq!(list[1].count, 0);
    assert!(list[1].platform.is_none());
    assert_eq!(list[2].count, 2);
    assert_eq!(list[2].platform.as_ref().unwrap().os, "macos");
}

#[test]
fn listing_keeps_equal_times_and_empty_input() {
    assert!(list_references(Vec::new()).is_empty());
    let list = list_references(vec![entry("a.json", 7, None), entry("b.json", 7, None)]);
    assert_eq!(list.len(), 2);
    assert!(list.iter().all(|r| r.created_at_ms == 7));
}
