use test_client_rs::text::{char_prefix, normalize_raw, trim};

#[test]
fn normalize_strips_space_quotes_and_prefix() {
    assert_eq!(normalize_raw("  \"0XABcd\"  "), "0xabcd");
}

#[test]
fn normalize_adds_missing_prefix() {
    assert_eq!(normalize_raw("abc"), "0xabc");
}

#[test]
fn normalize_strips_one_prefix_only() {
    assert_eq!(normalize_raw("0x0xAB"), "0x0xab");
}

#[test]
fn normalize_keeps_space_inside_quotes() {
    assert_eq!(normalize_raw("\"abc \""), "0xabc ");
}

#[test]
fn normalize_empty() {
    assert_eq!(normalize_raw(""), "0x");
    assert_eq!(normalize_raw("\"\""), "0x");
}

#[test]
fn normalize_leaves_non_ascii() {
    assert_eq!(normalize_raw("\u{c4}B"), "0x\u{c4}b");
}

#[test]
fn normalize_trims_unicode_space() {
    assert_eq!(normalize_raw("\u{3000}0xFF\u{2009}"), "0xff");
}

#[test]
fn normalize_ignores_case_on_example() {
    assert_eq!(normalize_raw("0XAbC"), normalize_raw("0xabc"));
    assert_eq!(normalize_raw(" \"0XAB\" "), normalize_raw(" \"0xab\" "));
}

#[test]
fn normalize_of_quoted_equals_unquoted() {
    assert_eq!(normalize_raw("\"0xAB12\""), normalize_raw("0xAB12"));
}

#[test]
fn trim_matches_std() {
    for s in ["  a b  ", "\t\n", "x", "\u{a0}y\u{85}", ""] {
        assert_eq!(trim(s), s.trim());
    }
}

#[test]
fn char_prefix_counts_chars() {
    assert_eq!(char_prefix("0x\u{e9}bcdef", 4), "0x\u{e9}b");
    assert_eq!(char_prefix("abc", 20), "abc");
}
