use test_client_rs::latency::{
    classify_row, experiment_duration_ms, latency_ms, summarize, LatencyTally, Median,
    RowOutcome, SendTimeMap,
};

fn sends() -> SendTimeMap {
    let mut m = SendTimeMap::new();
    m.insert_record("0XAB", 1000);
    m.insert_record("\"0xcd\"", 2000);
    m
}

#[test]
fn latency_examples() {
    assert_eq!(latency_ms(1000, 400), Some(600));
    assert_eq!(latency_ms(400, 1000), Some(-600));
    assert_eq!(latency_ms(1u128 << 64, 0), Some(0));
    assert_eq!(latency_ms(i64::MAX as u128, (1u128 << 64) - 1), None);
}

#[test]
fn send_map_keys_are_normalised() {
    let m = sends();
    assert_eq!(m.get("0xab"), Some(1000));
    assert_eq!(m.get("0xcd"), Some(2000));
    assert_eq!(m.get("0XAB"), None);
    assert_eq!(m.len(), 2);
}

#[test]
fn send_map_later_record_wins() {
    let mut m = sends();
    m.insert_record("0xAb", 1500);
    assert_eq!(m.get("0xab"), Some(1500));
    assert_eq!(m.len(), 2);
}

#[test]
fn classify_examples() {
    let m = sends();
    assert_eq!(classify_row(&m, "   "), RowOutcome::Blank);
    assert_eq!(classify_row(&m, "1,x,y"), RowOutcome::Malformed);
    assert_eq!(classify_row(&m, "0,1250,\"0xAB\""), RowOutcome::Matched { latency_ms: 250 });
    assert_eq!(
        classify_row(&m, " 2,2500,\"0xEF\" "),
        RowOutcome::Unmatched { key: "0xef".to_string() }
    );
}

#[test]
fn logged_line_is_matched_example() {
    let m = sends();
    let line = test_client_rs::csv::arrival_log_line(7, 2600, "\"0xCD\"");
    assert_eq!(classify_row(&m, &line), RowOutcome::Matched { latency_ms: 600 });
}

#[test]
fn tally_and_summary_even() {
    let mut m = SendTimeMap::new();
    m.insert_record("0xa", 100);
    let mut t = LatencyTally::new();
    for (arrival, _) in [(105u128, 0), (99, 0), (103, 0), (110, 0)] {
        t.record_row(&m, &format!("0,{},0xa", arrival));
    }
    t.record_row(&m, "");
    t.record_row(&m, "9,1,0xb");
    assert_eq!(t.rows(), 5);
    assert_eq!(t.missing(), 1);
    assert_eq!(t.matched(), 4);
    let s = summarize(t, None).unwrap();
    assert_eq!(s.sorted_ms, vec![-1, 3, 5, 10]);
    assert_eq!(s.sum_ms, 17);
    assert_eq!(s.median, Median::Pair(3, 5));
    assert_eq!(s.denominator, 4);
    assert_eq!(s.total_rows, 5);
    assert_eq!(s.missing, 1);
    assert_eq!(s.matched, 4);
}

#[test]
fn summary_odd_with_denominator() {
    let mut m = SendTimeMap::new();
    m.insert_record("0xa", 0);
    let mut t = LatencyTally::new();
    for a in [2u128, 9, 4] {
        t.record_row(&m, &format!("0,{},0xa", a));
    }
    let s = summarize(t, Some(10)).unwrap();
    assert_eq!(s.median, Median::Single(4));
    assert_eq!(s.denominator, 10);
    assert_eq!(s.sum_ms, 15);
}

#[test]
fn summary_of_nothing() {
    assert!(summarize(LatencyTally::new(), None).is_none());
}

#[test]
fn sum_ignores_order_example() {
    let mut m = SendTimeMap::new();
    m.insert_record("0xa", 0);
    let mut t1 = LatencyTally::new();
    let mut t2 = LatencyTally::new();
    for a in [5u128, 1, 8] {
        t1.record_row(&m, &format!("0,{},0xa", a));
    }
    for a in [8u128, 5, 1] {
        t2.record_row(&m, &format!("0,{},0xa", a));
    }
    assert_eq!(summarize(t1, None).unwrap().sum_ms, summarize(t2, None).unwrap().sum_ms);
}

#[test]
fn duration_saturates() {
    assert_eq!(experiment_duration_ms(100, 50), 0);
    assert_eq!(experiment_duration_ms(50, 100), 50);
}
