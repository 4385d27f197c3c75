use kalshi_maker::order_book::Side;
use kalshi_maker::sweep::SweepDetector;
use std::time::{Duration, Instant};

fn detector() -> SweepDetector {
    let mut d = SweepDetector::new(100, 10);
    d.record_bbo(45, 50);
    d
}

#[test]
fn new_detector_is_empty() {
    let d = SweepDetector::new(100, 10);
    assert!(d.trades.is_empty());
    assert_eq!(d.window_nanos, 100_000_000);
    assert_eq!(d.threshold, 10);
    assert_eq!((d.prev_yes_bid, d.prev_no_bid), (0, 0));
}

#[test]
fn first_bids_are_remembered_until_a_check() {
    let mut d = detector();
    d.record_bbo(30, 30);
    assert_eq!((d.prev_yes_bid, d.prev_no_bid), (45, 50));
    assert_eq!(d.check_at(10, 44, 50), None);
    assert_eq!((d.prev_yes_bid, d.prev_no_bid), (44, 50));
}

#[test]
fn trades_leave_the_window() {
    let mut d = detector();
    d.record_trade_at(0, true, 1);
    d.record_trade_at(100_000_000, false, 2);
    assert_eq!(d.trades.len(), 2);
    d.record_trade_at(100_000_001, false, 3);
    assert_eq!(d.trades, vec![(100_000_000, false, 2), (100_000_001, false, 3)]);
}

#[test]
fn no_takers_and_a_falling_yes_bid_pull_yes() {
    let mut d = detector();
    d.record_trade_at(5, false, 11);
    assert_eq!(d.check_at(10, 42, 50), Some(Side::Yes));
    assert!(d.trades.is_empty());
}

#[test]
fn yes_takers_and_a_falling_no_bid_pull_no() {
    let mut d = detector();
    d.record_trade_at(5, true, 6);
    d.record_trade_at(6, true, 5);
    assert_eq!(d.check_at(10, 45, 47), Some(Side::No));
}

#[test]
fn volume_at_the_threshold_is_no_sweep() {
    let mut d = detector();
    d.record_trade_at(5, false, 10);
    assert_eq!(d.check_at(10, 30, 50), None);
    assert_eq!(d.trades.len(), 1);
}

#[test]
fn drop_of_two_cents_is_no_sweep() {
    let mut d = detector();
    d.record_trade_at(5, false, 500);
    assert_eq!(d.check_at(10, 43, 50), None);
}

#[test]
fn takers_on_the_wrong_side_are_no_sweep() {
    let mut d = detector();
    d.record_trade_at(5, true, 500);
    assert_eq!(d.check_at(10, 40, 50), None);
}

#[test]
fn both_sides_swept_pull_yes() {
    let mut d = detector();
    d.record_trade_at(5, true, 11);
    d.record_trade_at(5, false, 11);
    assert_eq!(d.check_at(10, 42, 47), Some(Side::Yes));
}

#[test]
fn a_sweep_is_reported_once() {
    let mut d = detector();
    d.record_trade_at(5, false, 11);
    assert_eq!(d.check_at(10, 42, 50), Some(Side::Yes));
    assert_eq!(d.check_at(10, 30, 30), None);
}

#[test]
fn trades_are_taken_in_at_the_time_of_the_call() {
    let mut d = SweepDetector::new(60_000, 10);
    d.record_trade(true, 3);
    let start = Instant::now();
    while start.elapsed() < Duration::from_millis(5) {}
    d.record_trade(false, 4);
    assert_eq!(d.trades.len(), 2);
    assert!(d.trades[1].0 - d.trades[0].0 >= 5_000_000);
    assert_eq!((d.trades[0].1, d.trades[0].2), (true, 3));
    assert_eq!((d.trades[1].1, d.trades[1].2), (false, 4));
}

#[test]
fn trades_that_have_left_the_window_do_not_count() {
    let mut d = SweepDetector::new(1, 10);
    d.record_bbo(45, 50);
    d.record_trade_at(0, false, 11);
    let mut later = SweepDetector::new(1, 10);
    later.record_bbo(45, 50);
    later.record_trade_at(0, false, 11);
    assert_eq!(d.check_at(1_000_000, 42, 50), Some(Side::Yes));
    assert_eq!(later.check_at(1_000_001, 42, 50), None);
    assert_eq!(later.trades.len(), 1);
    assert_eq!((later.prev_yes_bid, later.prev_no_bid), (42, 50));
}

#[test]
fn sums_are_exact_however_large() {
    let mut d = detector();
    d.record_trade_at(5, false, i64::MAX);
    d.record_trade_at(5, false, i64::MAX);
    assert_eq!(d.check_at(10, 42, i64::MIN), Some(Side::Yes));
    assert_eq!(d.check_at(10, i64::MIN, i64::MAX), None);
}

#[test]
fn a_check_reads_the_clock() {
    let mut d = SweepDetector::new(60_000, 10);
    d.record_bbo(45, 50);
    d.record_trade(false, 11);
    assert_eq!(d.check(42, 50), Some(Side::Yes));
    let mut d = SweepDetector::new(1, 10);
    d.record_bbo(45, 50);
    d.record_trade(false, 11);
    let start = Instant::now();
    while start.elapsed() < Duration::from_millis(5) {}
    assert_eq!(d.check(42, 50), None);
}
