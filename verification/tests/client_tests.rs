use test_client_rs::client::{
    ClientConfig, ClientState, EndReason, RoundOutcome, RoundPlan, RoundStart,
};
use test_client_rs::clock::{epoch_ms, millis_of};
use std::time::Duration;

fn config(max: usize) -> ClientConfig {
    ClientConfig {
        max_tx_count: max,
        orderer_count: 5,
        l1_block_generation_interval_secs: 12,
        block_generation_interval_secs: 3,
    }
}

#[test]
fn first_round_plan() {
    let s = ClientState::new(config(10), 100);
    assert_eq!(
        s.start_round(false),
        RoundStart::Request(RoundPlan {
            rollup_block_height: 1,
            platform_block_height: 100,
            reported_platform_block_height: Some(97),
            current_leader_index: 1,
            next_leader_index: 2,
        })
    );
    assert_eq!(s.start_round(true), RoundStart::Stop(EndReason::TimeLimit));
}

#[test]
fn low_platform_height() {
    let s = ClientState::new(config(10), 2);
    match s.start_round(false) {
        RoundStart::Request(p) => {
            assert_eq!(p.reported_platform_block_height, None);
            assert_eq!(p.platform_block_height, 2);
        }
        other => panic!("{:?}", other),
    }
    let s = ClientState::new(config(10), 3);
    match s.start_round(false) {
        RoundStart::Request(p) => assert_eq!(p.reported_platform_block_height, Some(0)),
        other => panic!("{:?}", other),
    }
}

#[test]
fn stops_at_max_tx_count() {
    let mut s = ClientState::new(config(10), 100);
    assert_eq!(s.finish_round(RoundOutcome::Delivered { tx_count: 4 }), None);
    assert_eq!(s.finish_round(RoundOutcome::Failed), None);
    assert_eq!(s.finish_round(RoundOutcome::Delivered { tx_count: 5 }), None);
    assert_eq!(
        s.finish_round(RoundOutcome::Delivered { tx_count: 1 }),
        Some(EndReason::MaxTxCount)
    );
    assert_eq!(s.cumulative_tx_count(), 10);
    assert_eq!(s.arrival_log_len(), 10);
    assert_eq!(s.rollup_block_height(), 4);
}

#[test]
fn leader_rotates_on_delivery_only() {
    let mut s = ClientState::new(config(1000), 100);
    let leader = |s: &ClientState| match s.start_round(false) {
        RoundStart::Request(p) => (p.current_leader_index, p.next_leader_index),
        other => panic!("{:?}", other),
    };
    let (c0, n0) = leader(&s);
    s.finish_round(RoundOutcome::Failed);
    assert_eq!(leader(&s).0, c0);
    for _ in 0..7 {
        let (_, n) = leader(&s);
        s.finish_round(RoundOutcome::Delivered { tx_count: 0 });
        assert_eq!(leader(&s).0, n);
    }
    assert_eq!(n0, (c0 + 1) % 5);
}

#[test]
fn platform_height_moves_every_four_rounds() {
    let mut s = ClientState::new(config(1000), 100);
    let mut heights = Vec::new();
    for _ in 0..10 {
        s.finish_round(RoundOutcome::Failed);
        heights.push(s.platform_block_height());
    }
    assert_eq!(heights, vec![100, 100, 100, 100, 101, 101, 101, 101, 102, 102]);
}

#[test]
fn round_fits_normal_rounds() {
    let mut s = ClientState::new(config(10), 100);
    assert!(s.round_fits(&RoundOutcome::Delivered { tx_count: 3 }));
    assert!(s.round_fits(&RoundOutcome::Delivered { tx_count: usize::MAX }));
    s.finish_round(RoundOutcome::Delivered { tx_count: 3 });
    assert!(!s.round_fits(&RoundOutcome::Delivered { tx_count: usize::MAX }));
    assert!(s.round_fits(&RoundOutcome::Failed));
}

#[test]
fn end_reason_names() {
    assert_eq!(EndReason::TimeLimit.as_str(), "time_limit");
    assert_eq!(EndReason::MaxTxCount.as_str(), "max_tx_count");
}

#[test]
fn clock_reads_after_epoch() {
    let ms = epoch_ms().unwrap();
    assert!(ms > 1_600_000_000_000);
}

#[test]
fn millis_round_down() {
    assert_eq!(millis_of(1_700_000_000, 123_999_999), 1_700_000_000_123);
    assert_eq!(millis_of(0, 999_999), 0);
    assert_eq!(millis_of(u64::MAX, 999_999_999), u64::MAX as u128 * 1000 + 999);
}

#[test]
fn millis_match_duration_as_millis() {
    for (s, n) in [(0u64, 0u32), (1, 1_000_000), (59, 999_999_999), (1_712_345_678, 500_000_001)] {
        assert_eq!(millis_of(s, n), Duration::new(s, n).as_millis());
    }
}
