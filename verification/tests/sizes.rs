use qfind::sizes::{size_cache, size_line};

fn chars(s: &str) -> Vec<char> {
    s.chars().collect()
}

#[test]
fn cache_lines_need_three_fields() {
    assert_eq!(size_line(&chars("file:///a\t1024\t1700000000")), Some(("file:///a".to_string(), 1024, 1_700_000_000)));
    assert_eq!(size_line(&chars("file:///a\t1024")), None);
    assert_eq!(size_line(&chars("file:///a\t1024\t17\textra")), None);
    assert_eq!(size_line(&chars("file:///a\tx\t17")), None);
    assert_eq!(size_line(&chars("file:///a\t-1\t17")), None);
}

#[test]
fn cache_text_keeps_readable_lines() {
    let text = "file:///a\t1\t2\nbad line\nfile:///b\t3\t4\r\n";
    assert_eq!(size_cache(text), vec![("file:///a".to_string(), 1, 2), ("file:///b".to_string(), 3, 4)]);
}
