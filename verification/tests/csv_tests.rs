use test_client_rs::csv::{arrival_log_header, arrival_log_line, csv_row_fields, is_arrival_header};

#[test]
fn row_fields_quoted_raw() {
    assert_eq!(
        csv_row_fields("0,1700000000000,\"0xabc\""),
        Some((1700000000000, "0xabc".to_string()))
    );
}

#[test]
fn row_fields_keeps_later_commas() {
    assert_eq!(csv_row_fields("0,12,a,b"), Some((12, "a,b".to_string())));
}

#[test]
fn row_fields_rejects_short_or_bad_rows() {
    assert_eq!(csv_row_fields("0,12"), None);
    assert_eq!(csv_row_fields("no commas"), None);
    assert_eq!(csv_row_fields("0, 12,x"), None);
    assert_eq!(csv_row_fields("0,,x"), None);
    assert_eq!(csv_row_fields("0,340282366920938463463374607431768211456,x"), None);
}

#[test]
fn row_fields_accepts_plus_and_empty_index() {
    assert_eq!(csv_row_fields(",+12, x "), Some((12, "x".to_string())));
    assert_eq!(csv_row_fields("a,0,"), Some((0, String::new())));
}

#[test]
fn arrival_line_format() {
    assert_eq!(arrival_log_line(3, 17, "\"0xab\""), "3,17,\"0xab\"");
    assert_eq!(arrival_log_line(3, 17, "\"0xab\""), format!("{},{},{}", 3, 17, "\"0xab\""));
}

#[test]
fn arrival_line_round_trip_example() {
    let line = arrival_log_line(42, 1712345678901, " \"0xDEAD\" ");
    assert_eq!(csv_row_fields(&line), Some((1712345678901, "0xDEAD".to_string())));
}

#[test]
fn header_is_recognised() {
    assert_eq!(arrival_log_header(), "index,arrived_at_epoch_ms,raw_transaction");
    assert!(is_arrival_header(&arrival_log_header()));
    assert!(is_arrival_header("index,"));
    assert!(!is_arrival_header("index"));
    assert!(!is_arrival_header("idx,a,b"));
}
