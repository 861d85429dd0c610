use qfind::lines::{find_last, parse_i32, parse_u64, split_four, split_lines, split_three};

fn chars(s: &str) -> Vec<char> {
    s.chars().collect()
}

#[test]
fn split_lines_matches_str_lines() {
    let samples = [
        "", "a", "a\n", "a\nb", "a\r\nb\r\n", "\n", "\n\n", "a\r", "a\r\r\n", "\r\n", "x\n\ny\n",
        "tail\rx\n", "é\nü",
    ];
    for s in samples {
        let got: Vec<String> = split_lines(&chars(s)).into_iter().map(|l| l.into_iter().collect()).collect();
        let want: Vec<String> = s.lines().map(String::from).collect();
        assert_eq!(got, want, "{s:?}");
    }
}

#[test]
fn parse_i32_matches_str_parse() {
    let samples = [
        "0", "-0", "+0", "12", "-12", "+12", "", "-", "+", "1a", " 1", "2147483647", "2147483648",
        "-2147483648", "-2147483649", "99999999999999999999", "007", "--1", "+-1",
    ];
    for s in samples {
        assert_eq!(parse_i32(&chars(s)), s.parse::<i32>().ok(), "{s:?}");
    }
}

#[test]
fn parse_u64_matches_str_parse() {
    let samples = [
        "0", "+0", "-0", "18446744073709551615", "18446744073709551616", "", "+", "12x", "+42",
        "-1", "0042", "184467440737095516150",
    ];
    for s in samples {
        assert_eq!(parse_u64(&chars(s)), s.parse::<u64>().ok(), "{s:?}");
    }
}

#[test]
fn split_four_is_splitn_four() {
    for s in ["a\tb\tc\td", "a\tb\tc\td\te", "\t\t\t", "a\tb\tc", "", "1\t2\t3\t4\t\t"] {
        let parts: Vec<&str> = s.splitn(4, '\t').collect();
        let got = split_four(&chars(s)).map(|(a, b, c, d)| {
            [a, b, c, d].map(|p| p.into_iter().collect::<String>())
        });
        if parts.len() == 4 {
            let want = [parts[0], parts[1], parts[2], parts[3]].map(String::from);
            assert_eq!(got, Some(want), "{s:?}");
        } else {
            assert_eq!(got, None, "{s:?}");
        }
    }
}

#[test]
fn split_three_needs_exactly_two_tabs() {
    for s in ["a\tb\tc", "a\tb", "a\tb\tc\td", "\t\t", "x"] {
        let parts: Vec<&str> = s.split('\t').collect();
        let got = split_three(&chars(s)).map(|(a, b, c)| [a, b, c].map(|p| p.into_iter().collect::<String>()));
        if parts.len() == 3 {
            assert_eq!(got, Some([parts[0], parts[1], parts[2]].map(String::from)), "{s:?}");
        } else {
            assert_eq!(got, None, "{s:?}");
        }
    }
}

#[test]
fn find_last_finds_the_last_occurrence() {
    let s = chars("a/b/c");
    assert_eq!(find_last(&s, s.len(), '/'), Some(3));
    assert_eq!(find_last(&s, 3, '/'), Some(1));
    assert_eq!(find_last(&s, 1, '/'), None);
}
