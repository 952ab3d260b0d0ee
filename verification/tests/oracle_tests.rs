//! The library against the standard library's own string functions, on
//! many inputs.

use test_client_rs::csv::csv_row_fields;
use test_client_rs::text::{is_whitespace, normalize_raw};

fn normalize_with_std(s: &str) -> String {
    let s = s.trim().trim_matches('"');
    let s = s.strip_prefix("0X").or_else(|| s.strip_prefix("0x")).unwrap_or(s);
    format!("0x{}", s.to_ascii_lowercase())
}

fn row_fields_with_std(line: &str) -> Option<(u128, String)> {
    let mut parts = line.splitn(3, ',');
    let _index = parts.next()?;
    let arrived_at_epoch_ms: u128 = parts.next()?.parse().ok()?;
    let rest = parts.next()?;
    let raw = rest.trim().trim_matches('"').to_string();
    Some((arrived_at_epoch_ms, raw))
}

fn samples() -> Vec<String> {
    let pieces = [
        "", " ", "\t", "\"", "0", "x", "X", "0x", "0X", "aB", "Z", ",", "12", "+", "-",
        "\u{3000}", "\u{a0}", "\u{e9}", "\u{1F600}", "\n",
    ];
    let mut out = Vec::new();
    for a in pieces.iter() {
        for b in pieces.iter() {
            for c in pieces.iter() {
                out.push(format!("{}{}{}", a, b, c));
            }
        }
    }
    out
}

#[test]
fn whitespace_matches_std_on_every_char() {
    for u in 0u32..0x110000 {
        if let Some(c) = char::from_u32(u) {
            assert_eq!(is_whitespace(c), c.is_whitespace(), "U+{:04X}", u);
        }
    }
}

#[test]
fn normalize_matches_std() {
    for s in samples() {
        assert_eq!(normalize_raw(&s), normalize_with_std(&s), "{:?}", s);
    }
}

#[test]
fn row_fields_match_std() {
    for s in samples() {
        for line in [s.clone(), format!("1,{}", s), format!("1,2{}", s), format!("{},5,{}", s, s)] {
            assert_eq!(csv_row_fields(&line), row_fields_with_std(&line), "{:?}", line);
        }
    }
}
