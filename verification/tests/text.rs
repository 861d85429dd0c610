use qfind::text::{compare_text, contains, decimal_text, same_text, split_words, to_ascii_lower, to_ascii_upper};

fn chars(s: &str) -> Vec<char> {
    s.chars().collect()
}

#[test]
fn decimals() {
    assert_eq!(decimal_text(0), "0");
    assert_eq!(decimal_text(1234567890), "1234567890");
    assert_eq!(decimal_text(u64::MAX), u64::MAX.to_string());
}

#[test]
fn text_comparison_matches_str_order() {
    let samples = ["", "a", "ab", "b", "B", "é", "z", "aa"];
    for x in samples {
        for y in samples {
            let want = match x.cmp(y) {
                std::cmp::Ordering::Less => -1,
                std::cmp::Ordering::Equal => 0,
                std::cmp::Ordering::Greater => 1,
            };
            assert_eq!(compare_text(&chars(x), &chars(y)) as i32, want, "{x:?} {y:?}");
        }
    }
}

#[test]
fn words_and_cases() {
    let w: Vec<String> = split_words(&chars("  one\ttwo \u{3000}three ")).into_iter().map(|w| w.into_iter().collect()).collect();
    assert_eq!(w, vec!["one", "two", "three"]);
    assert_eq!(to_ascii_lower(&chars("AbÉ")), chars("abÉ"));
    assert_eq!(to_ascii_upper(&chars("aBé")), chars("ABé"));
    assert!(same_text(&chars("x"), &chars("x")));
    assert!(contains(&chars("hello"), &chars("ll")));
    assert!(!contains(&chars("hello"), &chars("lo!")));
}
