use kalshi_maker::bits::highest_bit;
use kalshi_maker::book_side::BookSide;

fn side(levels: &[(i64, i64)]) -> BookSide {
    assert!(BookSide::can_apply_snapshot(levels));
    let mut side = BookSide::new();
    side.apply_snapshot(levels);
    side
}

#[test]
fn empty_side_has_no_best_bid() {
    let side = BookSide::new();
    assert_eq!(side.best_bid, 0);
    assert_eq!(side.best_bid_qty(), 0);
    assert_eq!(side.total_qty, 0);
    assert_eq!(side.occupied, 0);
    assert!(side.top_n(5).is_empty());
    assert_eq!(side.best_bid_below(100), 0);
}

#[test]
fn highest_bit_of_both_halves() {
    assert_eq!(highest_bit(1), 0);
    assert_eq!(highest_bit(0b1010), 3);
    assert_eq!(highest_bit(1u128 << 63), 63);
    assert_eq!(highest_bit(1u128 << 64), 64);
    assert_eq!(highest_bit((1u128 << 99) | (1u128 << 98) | 1), 99);
    assert_eq!(highest_bit(u128::MAX), 127);
}

#[test]
fn snapshot_sets_levels_mask_and_total() {
    let s = side(&[(40, 10), (45, 5), (1, 7), (99, 2)]);
    assert_eq!(s.quantities[40], 10);
    assert_eq!(s.quantities[45], 5);
    assert_eq!(s.occupied, (1u128 << 40) | (1u128 << 45) | (1u128 << 1) | (1u128 << 99));
    assert_eq!(s.best_bid, 99);
    assert_eq!(s.best_bid_qty(), 2);
    assert_eq!(s.total_qty, 24);
}

#[test]
fn snapshot_skips_prices_outside_1_to_99() {
    let s = side(&[(0, 10), (100, 5), (-3, 7), (50, 1)]);
    assert_eq!(s.total_qty, 1);
    assert_eq!(s.best_bid, 50);
    assert_eq!(s.occupied, 1u128 << 50);
}

#[test]
fn snapshot_replaces_what_was_there() {
    let mut s = side(&[(40, 10), (60, 3)]);
    s.apply_snapshot(&[(30, 4)]);
    let fresh = side(&[(30, 4)]);
    assert_eq!(s.quantities, fresh.quantities);
    assert_eq!(s.occupied, fresh.occupied);
    assert_eq!(s.best_bid, 30);
    assert_eq!(s.total_qty, 4);
}

#[test]
fn last_quantity_of_a_repeated_price_stays() {
    let s = side(&[(50, 10), (50, 0)]);
    assert_eq!(s.quantities[50], 0);
    assert_eq!(s.total_qty, 10);
    assert_eq!(s.occupied, 0);
    assert_eq!(s.best_bid, 0);
    let s = side(&[(50, 10), (40, 2), (50, -3)]);
    assert_eq!(s.best_bid, 40);
    assert_eq!(s.occupied, 1u128 << 40);
    let s = side(&[(50, 0), (50, 10)]);
    assert_eq!(s.best_bid, 50);
    assert_eq!(s.best_bid_qty(), 10);
}

#[test]
fn snapshot_total_that_leaves_the_range_is_noticed() {
    assert!(!BookSide::can_apply_snapshot(&[(10, i64::MAX), (20, 1)]));
    assert!(BookSide::can_apply_snapshot(&[(10, i64::MAX), (20, 0)]));
    assert!(BookSide::can_apply_snapshot(&[(10, i64::MAX), (100, 1)]));
}

#[test]
fn delta_adds_a_better_level() {
    let mut s = side(&[(40, 10)]);
    assert!(s.can_apply_delta(42, 6));
    s.apply_delta(42, 6);
    assert_eq!(s.best_bid, 42);
    assert_eq!(s.best_bid_qty(), 6);
    assert_eq!(s.total_qty, 16);
}

#[test]
fn delta_that_empties_the_best_level_falls_back() {
    let mut s = side(&[(40, 10), (45, 5)]);
    s.apply_delta(45, -5);
    assert_eq!(s.best_bid, 40);
    assert_eq!(s.total_qty, 10);
    assert_eq!(s.occupied, 1u128 << 40);
    s.apply_delta(40, -10);
    assert_eq!(s.best_bid, 0);
    assert_eq!(s.occupied, 0);
}

#[test]
fn delta_never_goes_below_zero() {
    let mut s = side(&[(40, 10), (30, 1)]);
    s.apply_delta(40, -25);
    assert_eq!(s.quantities[40], 0);
    assert_eq!(s.total_qty, 1);
    assert_eq!(s.best_bid, 30);
}

#[test]
fn delta_outside_the_prices_is_ignored() {
    let mut s = side(&[(40, 10)]);
    let before = s.clone();
    s.apply_delta(0, 5);
    s.apply_delta(100, 5);
    assert_eq!(s.quantities, before.quantities);
    assert_eq!(s.total_qty, before.total_qty);
    assert_eq!(s.best_bid, before.best_bid);
}

#[test]
fn delta_that_leaves_the_range_is_noticed() {
    let s = side(&[(40, i64::MAX)]);
    assert!(!s.can_apply_delta(40, 1));
    assert!(!s.can_apply_delta(41, 1));
    assert!(s.can_apply_delta(40, -1));
    assert!(s.can_apply_delta(0, 1));
}

#[test]
fn opposite_deltas_cancel_out() {
    let mut s = side(&[(40, 10), (45, 5)]);
    let before = s.clone();
    s.apply_delta(45, -3);
    s.apply_delta(45, 3);
    s.apply_delta(60, 8);
    s.apply_delta(60, -8);
    assert_eq!(s.quantities, before.quantities);
    assert_eq!(s.occupied, before.occupied);
    assert_eq!(s.best_bid, before.best_bid);
    assert_eq!(s.total_qty, before.total_qty);
}

#[test]
fn best_bid_below_walks_down_the_levels() {
    let s = side(&[(40, 10), (45, 5), (1, 7)]);
    assert_eq!(s.best_bid_below(100), 45);
    assert_eq!(s.best_bid_below(127), 45);
    assert_eq!(s.best_bid_below(128), 45);
    assert_eq!(s.best_bid_below(i64::MAX), 45);
    assert_eq!(s.best_bid_below(45), 40);
    assert_eq!(s.best_bid_below(46), 45);
    assert_eq!(s.best_bid_below(40), 1);
    assert_eq!(s.best_bid_below(2), 1);
    assert_eq!(s.best_bid_below(1), 0);
    assert_eq!(s.best_bid_below(-7), 0);
}

#[test]
fn top_n_lists_best_first() {
    let s = side(&[(40, 10), (45, 5), (1, 7)]);
    assert_eq!(s.top_n(2), vec![(45, 5), (40, 10)]);
    assert_eq!(s.top_n(9), vec![(45, 5), (40, 10), (1, 7)]);
    assert!(s.top_n(0).is_empty());
}
