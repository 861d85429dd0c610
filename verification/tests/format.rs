use qfind::format::{human_age, human_size, meta_line, modified_text};

fn float_style(n: u64) -> String {
    const K: f64 = 1024.0;
    let x = n as f64;
    if x < K {
        format!("{} B", x as u64)
    } else if x < K * K {
        format!("{:.1} KB", x / K)
    } else if x < K * K * K {
        format!("{:.1} MB", x / (K * K))
    } else {
        format!("{:.1} GB", x / (K * K * K))
    }
}

#[test]
fn human_size_bytes_below_one_kilobyte() {
    assert_eq!(human_size(0), "0 B");
    assert_eq!(human_size(512), "512 B");
    assert_eq!(human_size(1023), "1023 B");
}

#[test]
fn human_size_units() {
    assert_eq!(human_size(1024), "1.0 KB");
    assert_eq!(human_size(1536), "1.5 KB");
    assert_eq!(human_size(1024 * 1024), "1.0 MB");
    assert_eq!(human_size(3 * 1024 * 1024 + 200 * 1024), "3.2 MB");
    assert_eq!(human_size(1024 * 1024 * 1024), "1.0 GB");
    assert_eq!(human_size(5 * 1024 * 1024 * 1024), "5.0 GB");
}

#[test]
fn human_size_rounds_ties_to_even() {
    // 1280 / 1024 = 1.25 exactly.
    assert_eq!(human_size(1280), "1.2 KB");
    // 1792 / 1024 = 1.75 exactly.
    assert_eq!(human_size(1792), "1.8 KB");
}

#[test]
fn human_size_just_below_a_unit_boundary() {
    assert_eq!(human_size(1024 * 1024 - 1), "1024.0 KB");
}

#[test]
fn human_size_matches_float_formatting() {
    let mut samples: Vec<u64> = vec![
        0, 1, 999, 1023, 1024, 1025, 1126, 1127, 1228, 1280, 1331, 1536, 1792, 10_239, 10_240,
        52_480, 1_048_575, 1_048_576, 1_153_433, 1_073_741_823, 1_073_741_824,
        9_007_199_254_740_992, 9_007_199_254_740_993, 9_007_199_254_740_995,
        18_446_744_073_709_551_615, u64::MAX - 1024,
    ];
    let mut x: u64 = 7;
    for _ in 0..2000 {
        x = x.wrapping_mul(6364136223846793005).wrapping_add(1442695040888963407);
        samples.push(x >> (x % 64));
    }
    for k in 0..4096u64 {
        samples.push(1024 + k * 13);
        samples.push((1 << 20) + k * 12_345);
    }
    for n in samples {
        assert_eq!(human_size(n), float_style(n), "n = {n}");
    }
}

#[test]
fn human_age_steps() {
    assert_eq!(human_age(1000, 1000), "just now");
    assert_eq!(human_age(1044, 1000), "just now");
    assert_eq!(human_age(1045, 1000), "1 min ago");
    assert_eq!(human_age(1090, 1000), "1 min ago");
    assert_eq!(human_age(1000 + 3599, 1000), "59 min ago");
    assert_eq!(human_age(1000 + 3600, 1000), "1 h ago");
    assert_eq!(human_age(1000 + 5400, 1000), "2 h ago");
    assert_eq!(human_age(1000 + 129_599, 1000), "36 h ago");
    assert_eq!(human_age(1000 + 129_600, 1000), "2 days ago");
    assert_eq!(human_age(1000 + 86_400 * 14, 1000), "14 days ago");
    assert_eq!(human_age(1000 + 86_400 * 30 + 80_000, 1000), "30 days ago");
}

#[test]
fn human_age_future_and_extremes() {
    assert_eq!(human_age(0, 100), "just now");
    assert_eq!(human_age(i64::MIN, i64::MAX), "just now");
    assert_eq!(human_age(i64::MAX, i64::MIN), format!("{} days ago", i64::MAX / 86_400));
}

#[test]
fn meta_line_joins_size_and_age() {
    assert_eq!(meta_line("1.0 KB", ""), "1.0 KB");
    assert_eq!(meta_line("1.0 KB", "just now"), "1.0 KB  ·  just now");
}

#[test]
fn modified_text_dash_for_unknown() {
    assert_eq!(modified_text(0), "—");
    assert_eq!(modified_text(-5), "—");
    assert!(modified_text(1).ends_with("days ago"));
}
