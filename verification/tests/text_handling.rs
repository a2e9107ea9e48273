use swingr::text::{
    chars_of, contains_str, ends_with_str, is_whitespace, line_ranges, push_decimal,
    push_signed_decimal, push_zero_padded, split_ranges, starts_with_str, str_eq, trim,
};

fn render(f: impl Fn(&mut Vec<char>)) -> String {
    let mut v = Vec::new();
    f(&mut v);
    v.into_iter().collect()
}

fn lines(s: &str) -> Vec<String> {
    let v = chars_of(s);
    line_ranges(&v).iter().map(|&(a, b)| v[a..b].iter().collect()).collect()
}

#[test]
fn trim_removes_unicode_whitespace_at_both_ends() {
    assert_eq!(trim("  AAPL \t"), "AAPL");
    assert_eq!(trim("\u{3000}x y\u{a0}"), "x y");
    assert_eq!(trim("   "), "");
    assert_eq!(trim(""), "");
    assert!(is_whitespace('\u{2028}'));
    assert!(!is_whitespace('x'));
}

#[test]
fn lines_match_std_lines() {
    for s in ["", "\n", "a", "a\n", "a\r\nb", "a\rb", "a\n\nb\n", "x\r", "a\r\n"] {
        let want: Vec<String> = s.lines().map(|l| l.to_string()).collect();
        assert_eq!(lines(s), want, "{s:?}");
    }
}

#[test]
fn split_matches_std_split() {
    for s in ["", "|", "a|b||c", "a|b|c|"] {
        let v = chars_of(s);
        let got: Vec<String> = split_ranges(&v, 0, v.len(), '|')
            .iter()
            .map(|&(a, b)| v[a..b].iter().collect())
            .collect();
        let want: Vec<String> = s.split('|').map(|p| p.to_string()).collect();
        assert_eq!(got, want);
    }
}

#[test]
fn substring_prefix_and_suffix_tests() {
    assert!(contains_str("File Creation Time: 0101", "Creation"));
    assert!(!contains_str("abc", "abd"));
    assert!(contains_str("abc", ""));
    assert!(starts_with_str("Unauthorized: x", "Unauthorized"));
    assert!(!starts_with_str("Una", "Unauthorized"));
    assert!(ends_with_str("report.json", ".json"));
    assert!(str_eq("daily", "daily"));
    assert!(!str_eq("daily", "Daily"));

}

#[test]
fn decimal_rendering_matches_format() {
    assert_eq!(render(|v| push_decimal(v, 0)), "0");
    assert_eq!(render(|v| push_decimal(v, 1234567890)), "1234567890");
    assert_eq!(render(|v| push_decimal(v, u64::MAX)), u64::MAX.to_string());
    assert_eq!(render(|v| push_signed_decimal(v, -42)), "-42");
    assert_eq!(render(|v| push_signed_decimal(v, i64::MIN)), i64::MIN.to_string());
    assert_eq!(render(|v| push_zero_padded(v, 7, 2)), format!("{:02}", 7));
    assert_eq!(render(|v| push_zero_padded(v, -5, 4)), format!("{:04}", -5));
    assert_eq!(render(|v| push_zero_padded(v, 12345, 4)), "12345");
}
