use qfind::diff::word_changes;

#[test]
fn word_changes_marks_the_changed_word() {
    let mut budget = 200_000usize;
    let r = word_changes("let x = 1;", "let y = 1;", &mut budget);
    assert_eq!(r[0], vec![(4, 5)]);
    assert_eq!(r[1], vec![(4, 5)]);
}

#[test]
fn word_changes_identical_lines_have_no_changes() {
    let mut budget = 1000usize;
    let r = word_changes("same words here", "same words here", &mut budget);
    assert!(r[0].is_empty() && r[1].is_empty());
    // 5 tokens each: (5 + 1) * (5 + 1) = 36 cells.
    assert_eq!(budget, 1000 - 36);
}

#[test]
fn word_changes_insertions_and_deletions() {
    let mut budget = 200_000usize;
    let r = word_changes("a b", "a new b", &mut budget);
    assert!(r[0].is_empty());
    assert_eq!(r[1], vec![(2, 5), (5, 6)]);
    assert_eq!(budget, 200_000 - 24);
    let r = word_changes("a old b", "a b", &mut budget);
    assert_eq!(r[0], vec![(2, 5), (5, 6)]);
    assert!(r[1].is_empty());
}

#[test]
fn word_changes_punctuation_stands_alone() {
    let mut budget = 200_000usize;
    let r = word_changes("f(a,b)", "f(a;b)", &mut budget);
    assert_eq!(r[0], vec![(3, 4)]);
    assert_eq!(r[1], vec![(3, 4)]);
}

#[test]
fn word_changes_counts_characters_not_bytes() {
    let mut budget = 200_000usize;
    let r = word_changes("é x", "é y", &mut budget);
    assert_eq!(r[0], vec![(2, 3)]);
    assert_eq!(r[1], vec![(2, 3)]);
}

#[test]
fn word_changes_respects_limits() {
    let long = "x".repeat(2049);
    let mut budget = 200_000usize;
    let r = word_changes(&long, "x", &mut budget);
    assert!(r[0].is_empty() && r[1].is_empty());
    assert_eq!(budget, 200_000);
    let many = "a ".repeat(100);
    let r = word_changes(&many, "b", &mut budget);
    assert!(r[0].is_empty() && r[1].is_empty());
    assert_eq!(budget, 200_000);
    let mut small = 3usize;
    let r = word_changes("a b", "a c", &mut small);
    assert!(r[0].is_empty() && r[1].is_empty());
    assert_eq!(small, 3);
}

#[test]
fn word_changes_empty_lines() {
    let mut budget = 10usize;
    let r = word_changes("", "", &mut budget);
    assert!(r[0].is_empty() && r[1].is_empty());
    assert_eq!(budget, 9);
    let r = word_changes("", "ab", &mut budget);
    assert!(r[0].is_empty());
    assert_eq!(r[1], vec![(0, 2)]);
    assert_eq!(budget, 7);
}
