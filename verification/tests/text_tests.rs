use glance_github_graph::text::dec_string;
use glance_github_graph::text::first_token_str;
use glance_github_graph::text::parse_bool;
use glance_github_graph::text::parse_u32;
use glance_github_graph::text::str_eq;
use glance_github_graph::text::str_le;

#[test]
fn parse_u32_accepts_plain_numbers() {
    assert_eq!(parse_u32("0"), Some(0));
    assert_eq!(parse_u32("3599"), Some(3599));
    assert_eq!(parse_u32("+7"), Some(7));
    assert_eq!(parse_u32("4294967295"), Some(u32::MAX));
}

#[test]
fn parse_u32_rejects_other_text() {
    assert_eq!(parse_u32(""), None);
    assert_eq!(parse_u32("+"), None);
    assert_eq!(parse_u32("-1"), None);
    assert_eq!(parse_u32("12a"), None);
    assert_eq!(parse_u32("1 2"), None);
    assert_eq!(parse_u32("4294967296"), None);
    assert_eq!(parse_u32("99999999999999999999"), None);
}

#[test]
fn first_token_skips_leading_whitespace() {
    assert_eq!(first_token_str("  12 contributions"), "12");
    assert_eq!(first_token_str("one two"), "one");
    assert_eq!(first_token_str("solo"), "solo");
    assert_eq!(first_token_str("   "), "");
    assert_eq!(first_token_str(""), "");
    assert_eq!(first_token_str("\u{a0}tab\tsplit"), "tab");
}

#[test]
fn decimal_formatting() {
    assert_eq!(dec_string(0), "0");
    assert_eq!(dec_string(360), "360");
    assert_eq!(dec_string(1040400), "1040400");
}

#[test]
fn bool_parsing_is_exact() {
    assert_eq!(parse_bool("true"), Some(true));
    assert_eq!(parse_bool("false"), Some(false));
    assert_eq!(parse_bool("TRUE"), None);
    assert_eq!(parse_bool(""), None);
}

#[test]
fn string_comparison_matches_std() {
    assert!(str_eq("abc", "abc"));
    assert!(!str_eq("abc", "abd"));
    assert_eq!(str_le("2024-01-02", "2024-01-03"), "2024-01-02" <= "2024-01-03");
    assert_eq!(str_le("2024-01-03", "2024-01-02"), "2024-01-03" <= "2024-01-02");
    assert_eq!(str_le("abc", "abcd"), "abc" <= "abcd");
    assert_eq!(str_le("", "a"), true);
    assert_eq!(str_le("b", "añ"), "b" <= "añ");
}
