use kalshi_maker::order_book::{BookEvent, BookEventDetector, Imbalance, OrderBook, Side, TopOfBook};
use std::time::Instant;

fn book(yes: &[(i64, i64)], no: &[(i64, i64)]) -> OrderBook {
    let mut book = OrderBook::new();
    book.apply_snapshot(yes, no, 7);
    book
}

#[test]
fn new_book_waits_for_a_snapshot() {
    let b = OrderBook::new();
    assert!(!b.initialized);
    assert_eq!(b.seq, 0);
    assert_eq!(b.best_yes_bid(), 0);
    assert_eq!(b.best_yes_ask(), 0);
    assert_eq!(b.yes_spread(), i64::MAX);
    assert_eq!(b.top_of_book(), None);
    assert_eq!(b.imbalance(), Imbalance::Neither);
    assert_eq!(b.near_bbo_depth(3), 0);
}

#[test]
fn snapshot_makes_the_book() {
    let start = Instant::now();
    let b = book(&[(40, 10)], &[(55, 4)]);
    assert!(b.initialized);
    assert_eq!(b.seq, 7);
    assert!(b.last_update >= start);
    assert_eq!(b.best_yes_bid(), 40);
    assert_eq!(b.best_yes_ask(), 45);
    assert_eq!(b.yes_spread(), 5);
}

#[test]
fn delta_in_order_is_applied() {
    let mut b = book(&[(40, 10)], &[(55, 4)]);
    assert!(b.apply_delta(Side::No, 57, 2, 8));
    assert_eq!(b.seq, 8);
    assert_eq!(b.best_yes_ask(), 43);
    assert!(b.apply_delta(Side::Yes, 41, 3, 9));
    assert_eq!(b.best_yes_bid(), 41);
}

#[test]
fn delta_out_of_order_is_refused() {
    let mut b = book(&[(40, 10)], &[(55, 4)]);
    assert!(!b.apply_delta(Side::Yes, 41, 3, 7));
    assert!(!b.apply_delta(Side::Yes, 41, 3, 9));
    assert_eq!(b.seq, 7);
    assert_eq!(b.best_yes_bid(), 40);
}

#[test]
fn top_of_book_needs_an_uncrossed_book() {
    let b = book(&[(40, 10)], &[(55, 4)]);
    assert_eq!(b.top_of_book(), Some(TopOfBook { bid: 40, ask: 45, bid_qty: 10, ask_qty: 4 }));
    assert_eq!(book(&[(45, 1)], &[(55, 4)]).top_of_book(), None);
    assert_eq!(book(&[(60, 1)], &[(55, 4)]).top_of_book(), None);
    assert_eq!(book(&[(60, 1)], &[]).top_of_book(), None);
}

#[test]
fn imbalance_of_the_best_bids() {
    assert_eq!(
        book(&[(40, 10)], &[(55, 4)]).imbalance(),
        Imbalance::Ratio { bid_qty: 10, ask_qty: 4 }
    );
    assert_eq!(book(&[], &[(55, 4)]).imbalance(), Imbalance::Ratio { bid_qty: 0, ask_qty: 4 });
    assert_eq!(book(&[(40, 10)], &[]).imbalance(), Imbalance::BidOnly);
    assert_eq!(book(&[], &[]).imbalance(), Imbalance::Neither);
}

#[test]
fn depth_near_the_best_bids() {
    let b = book(&[(40, 10), (38, 5), (37, 100)], &[(55, 4), (53, 1), (2, 9)]);
    assert!(b.can_sum_depth(2));
    assert_eq!(b.near_bbo_depth(2), 20);
    assert_eq!(b.near_bbo_depth(0), 14);
    assert_eq!(b.near_bbo_depth(99), 129);
    assert_eq!(b.near_bbo_depth(-1), 0);
}

#[test]
fn depth_that_leaves_the_range_is_noticed() {
    let b = book(&[(40, i64::MAX)], &[(55, 1)]);
    assert!(!b.can_sum_depth(0));
    assert!(!book(&[(40, 1)], &[]).can_sum_depth(i64::MIN));
}

#[test]
fn detector_reports_a_moved_top() {
    let mut detector = BookEventDetector::new();
    let mut b = book(&[(40, 10)], &[(55, 4)]);
    assert!(detector.detect(&b).is_empty());
    assert!(detector.detect(&b).is_empty());
    b.apply_delta(Side::Yes, 42, 1, 8);
    let events = detector.detect(&b);
    assert_eq!(
        events,
        vec![BookEvent::TopOfBookChanged { old_bid: 40, old_ask: 45, new_bid: 42, new_ask: 45 }]
    );
    assert!(detector.detect(&b).is_empty());
}

#[test]
fn detector_ignores_changes_behind_the_top() {
    let mut detector = BookEventDetector::new();
    let mut b = book(&[(40, 10)], &[(55, 4)]);
    detector.detect(&b);
    b.apply_delta(Side::Yes, 30, 1, 8);
    assert!(detector.detect(&b).is_empty());
}

#[test]
fn cloned_book_is_equal_but_apart() {
    let a = book(&[(40, 10)], &[(55, 4)]);
    let mut b = a.clone();
    b.apply_delta(Side::Yes, 41, 3, 8);
    assert_eq!(a.best_yes_bid(), 40);
    assert_eq!(b.best_yes_bid(), 41);
    assert_eq!(b.best_yes_ask(), a.best_yes_ask());
}
