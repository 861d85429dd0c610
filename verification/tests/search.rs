use qfind::search::sort_reads_metadata;
use qfind::search::{
    admits, count_kinds, fuzzy_contains, hidden_skipped, name_matches, order_live, word_match,
    LiveEntry, MatchMode, ScopeMode, SortMode,
};

fn entry(name: &str, is_dir: bool, size: u64, mtime: i64) -> LiveEntry {
    LiveEntry { name: name.to_string(), path: format!("/d/{name}"), is_dir, size, mtime }
}

fn names(entries: &[LiveEntry]) -> Vec<&str> {
    entries.iter().map(|e| e.name.as_str()).collect()
}

#[test]
fn fuzzy_query_matches_letters_in_order() {
    assert!(name_matches("hello.txt", "hlo", MatchMode::Fuzzy));
    assert!(!name_matches("hello.txt", "olh", MatchMode::Fuzzy));
    assert!(name_matches("Hello.TXT", "HLO txt", MatchMode::Fuzzy));
}

#[test]
fn substring_query_needs_contiguous_words() {
    assert!(!name_matches("hello.txt", "hlo", MatchMode::Substring));
    assert!(name_matches("hello.txt", "ell", MatchMode::Substring));
    assert!(name_matches("hello.txt", "LO.T he", MatchMode::Substring));
}

#[test]
fn exact_query_is_the_whole_name() {
    assert!(name_matches("Hello.txt", "hello.TXT", MatchMode::Exact));
    assert!(!name_matches("hello.txt", "hello", MatchMode::Exact));
}

#[test]
fn empty_query_matches_every_name() {
    assert!(name_matches("anything", "", MatchMode::Fuzzy));
    assert!(name_matches("anything", "   ", MatchMode::Exact));
}

#[test]
fn fuzzy_contains_and_word_match() {
    let name: Vec<char> = "abcdef".chars().collect();
    let word: Vec<char> = "ace".chars().collect();
    let back: Vec<char> = "ea".chars().collect();
    assert!(fuzzy_contains(&name, &word));
    assert!(!fuzzy_contains(&name, &back));
    assert!(fuzzy_contains(&name, &[]));
    assert!(!fuzzy_contains(&[], &word));
    assert!(word_match(&name, &"cde".chars().collect::<Vec<_>>(), MatchMode::Substring));
    assert!(!word_match(&name, &"ce".chars().collect::<Vec<_>>(), MatchMode::Substring));
}

#[test]
fn unicode_lowercase_is_used() {
    assert!(name_matches("ÄPFEL.txt", "äpfel", MatchMode::Substring));
}

#[test]
fn live_order_by_name_with_folders_first() {
    let entries = vec![
        entry("b.txt", false, 1, 1),
        entry("Zeta", true, 0, 0),
        entry("a.txt", false, 1, 1),
        entry("alpha", true, 0, 0),
    ];
    let out = order_live(entries, SortMode::Name, true, 10);
    assert_eq!(names(&out), vec!["alpha", "Zeta", "a.txt", "b.txt"]);
}

#[test]
fn live_order_descending_and_limit() {
    let entries = vec![entry("a", false, 1, 1), entry("c", false, 1, 1), entry("b", false, 1, 1)];
    let out = order_live(entries, SortMode::NameDesc, false, 2);
    assert_eq!(names(&out), vec!["c", "b"]);
}

#[test]
fn live_order_by_time_and_size() {
    let entries = vec![
        entry("old", false, 10, 100),
        entry("new", false, 5, 300),
        entry("mid", false, 20, 200),
        entry("tie", false, 20, 200),
    ];
    let newest = order_live(entries, SortMode::Newest, false, 10);
    assert_eq!(names(&newest), vec!["new", "mid", "tie", "old"]);
    let entries = vec![
        entry("old", false, 10, 100),
        entry("new", false, 5, 300),
        entry("mid", false, 20, 200),
        entry("tie", false, 20, 200),
    ];
    let largest = order_live(entries, SortMode::Largest, false, 10);
    assert_eq!(names(&largest), vec!["mid", "tie", "old", "new"]);
    let entries = vec![entry("x", false, 3, 9), entry("y", false, 1, 8)];
    assert_eq!(names(&order_live(entries, SortMode::Smallest, false, 10)), vec!["y", "x"]);
    let entries = vec![entry("x", false, 3, 9), entry("y", false, 1, 8)];
    assert_eq!(names(&order_live(entries, SortMode::Oldest, false, 10)), vec!["y", "x"]);
}

#[test]
fn live_order_is_stable_for_equal_names() {
    let mut a = entry("same", false, 1, 1);
    a.path = "/first".into();
    let mut b = entry("SAME", false, 1, 1);
    b.path = "/second".into();
    let out = order_live(vec![a, b], SortMode::Score, false, 10);
    assert_eq!(out[0].path, "/first");
    assert_eq!(out[1].path, "/second");
}

#[test]
fn counting_folders_and_files() {
    assert_eq!(count_kinds(&vec![true, false, false, true, false]), (2, 3));
    assert_eq!(count_kinds(&vec![]), (0, 0));
}

#[test]
fn hidden_entries_are_skipped_unless_shown() {
    assert!(hidden_skipped(".git", false));
    assert!(!hidden_skipped(".git", true));
    assert!(!hidden_skipped("src", false));
    assert!(!hidden_skipped("", false));
}

#[test]
fn admission_checks_every_filter() {
    assert!(admits("photo.png", false, false, ScopeMode::All, true, "pho", MatchMode::Fuzzy));
    assert!(!admits("photo.png", false, true, ScopeMode::All, true, "pho", MatchMode::Fuzzy));
    assert!(!admits("photo.png", false, false, ScopeMode::Folders, true, "", MatchMode::Fuzzy));
    assert!(admits("docs", true, false, ScopeMode::Folders, true, "", MatchMode::Fuzzy));
    assert!(!admits("docs", true, false, ScopeMode::Files, true, "", MatchMode::Fuzzy));
    assert!(!admits("photo.png", false, false, ScopeMode::All, false, "", MatchMode::Fuzzy));
    assert!(!admits("photo.png", false, false, ScopeMode::All, true, "xyz", MatchMode::Fuzzy));
}

#[test]
fn metadata_orders() {
    assert!(sort_reads_metadata(SortMode::Newest));
    assert!(sort_reads_metadata(SortMode::Smallest));
    assert!(!sort_reads_metadata(SortMode::Name));
    assert!(!sort_reads_metadata(SortMode::Score));
}
