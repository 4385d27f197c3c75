use kalshi_maker::order_book::Side;
use kalshi_maker::pairs::PairTracker;

fn legs(legs: &std::collections::VecDeque<i64>) -> Vec<i64> {
    legs.iter().copied().collect()
}

#[test]
fn new_tracker_holds_the_starting_position() {
    let p = PairTracker::new(-4);
    assert_eq!(p.inventory, -4);
    assert_eq!(p.pairs_completed, 0);
    assert_eq!(p.realized_pnl, 0);
    assert!(!p.has_unpaired());
}

#[test]
fn a_pair_earns_what_is_left_of_100() {
    let mut p = PairTracker::new(0);
    p.record_fill(Side::Yes, 45, 1, 1);
    assert!(p.has_unpaired());
    assert_eq!(legs(&p.yes_legs), vec![45]);
    p.record_fill(Side::No, 48, 1, 0);
    assert_eq!(p.pairs_completed, 1);
    assert_eq!(p.realized_pnl, 3);
    assert_eq!(p.inventory, 0);
    assert!(!p.has_unpaired());
}

#[test]
fn no_legs_are_kept_at_their_own_cost() {
    let mut p = PairTracker::new(0);
    p.record_fill(Side::No, 48, 2, -2);
    assert_eq!(legs(&p.no_legs), vec![52, 52]);
    p.record_fill(Side::Yes, 50, 1, -1);
    assert_eq!(p.realized_pnl, -2);
    assert_eq!(legs(&p.no_legs), vec![52]);
}

#[test]
fn oldest_leg_is_paired_first() {
    let mut p = PairTracker::new(0);
    p.record_fill(Side::Yes, 40, 1, 1);
    p.record_fill(Side::Yes, 44, 1, 2);
    p.record_fill(Side::No, 47, 1, 1);
    assert_eq!(p.realized_pnl, 7);
    assert_eq!(legs(&p.yes_legs), vec![44]);
}

#[test]
fn surplus_of_a_fill_waits() {
    let mut p = PairTracker::new(0);
    p.record_fill(Side::Yes, 40, 2, 2);
    p.record_fill(Side::No, 45, 3, -1);
    assert_eq!(p.pairs_completed, 2);
    assert_eq!(p.realized_pnl, 10);
    assert_eq!(legs(&p.no_legs), vec![55]);
    assert!(p.yes_legs.is_empty());
}

#[test]
fn a_fill_may_come_in_parts() {
    let mut whole = PairTracker::new(0);
    whole.record_fill(Side::Yes, 40, 2, 2);
    whole.record_fill(Side::No, 45, 3, -1);
    let mut parts = PairTracker::new(0);
    parts.record_fill(Side::Yes, 40, 2, 2);
    parts.record_fill(Side::No, 45, 1, 1);
    parts.record_fill(Side::No, 45, 2, -1);
    assert_eq!(whole.realized_pnl, parts.realized_pnl);
    assert_eq!(whole.pairs_completed, parts.pairs_completed);
    assert_eq!(legs(&whole.no_legs), legs(&parts.no_legs));
}

#[test]
fn reported_position_wins() {
    let mut p = PairTracker::new(0);
    p.record_fill(Side::Yes, 40, 1, 9);
    assert_eq!(p.inventory, 9);
}

#[test]
fn drift_is_what_the_count_says_otherwise() {
    let p = PairTracker::new(2);
    assert_eq!(p.drift(Side::Yes, 1, 3), None);
    assert_eq!(p.drift(Side::Yes, 1, 9), Some(3));
    assert_eq!(p.drift(Side::No, 1, 1), None);
    assert_eq!(p.drift(Side::No, 4, 0), Some(-2));
}

#[test]
fn fill_without_contracts_sets_the_position_alone() {
    let mut p = PairTracker::new(0);
    p.record_fill(Side::No, 40, 0, 2);
    p.record_fill(Side::Yes, 40, -3, 1);
    assert_eq!(p.inventory, 1);
    assert!(!p.has_unpaired());
    assert_eq!(p.pairs_completed, 0);
}

#[test]
fn fill_that_leaves_the_range_is_noticed() {
    let mut p = PairTracker::new(i64::MAX);
    assert!(!p.can_record_fill(Side::Yes, 40, 1));
    assert!(p.can_record_fill(Side::No, 40, 1));
    assert!(!p.can_record_fill(Side::No, i64::MIN, 1));
    p.record_fill(Side::No, 40, 1, 0);
    assert!(!p.can_record_fill(Side::Yes, i64::MAX, 1));
    p.pairs_completed = u64::MAX;
    assert!(!p.can_record_fill(Side::Yes, 40, 1));
}
