use kalshi_maker::order_book::Side;
use kalshi_maker::tracker::{Order, Tracker};

fn order(id: &str, side: Side, price: i64, remaining: i64, placed_at: u128) -> Order {
    Order { order_id: id.to_string(), side, price, remaining, placed_at }
}

fn tracker() -> Tracker {
    let mut t = Tracker::new();
    t.insert(order("a", Side::Yes, 40, 2, 0));
    t.insert(order("b", Side::No, 55, 3, 5_000_000_000));
    t.insert(order("c", Side::Yes, 39, 4, 20_000_000_000));
    t
}

#[test]
fn pending_adds_up_one_side() {
    let t = tracker();
    assert_eq!(t.pending_on_side(Side::Yes), 6);
    assert_eq!(t.pending_on_side(Side::No), 3);
    assert_eq!(Tracker::new().pending_on_side(Side::Yes), 0);
}

#[test]
fn pending_that_leaves_the_range_is_noticed() {
    let mut t = tracker();
    t.insert(order("d", Side::Yes, 1, i64::MAX, 0));
    assert!(!t.can_sum_pending(Side::Yes));
    assert!(t.can_sum_pending(Side::No));
}

#[test]
fn insert_replaces_an_order_with_the_same_id() {
    let mut t = tracker();
    t.insert(order("b", Side::No, 50, 9, 1));
    assert_eq!(t.orders.len(), 3);
    assert_eq!(t.orders[1].price, 50);
    assert_eq!(t.pending_on_side(Side::No), 9);
}

#[test]
fn remove_drops_that_order_alone() {
    let mut t = tracker();
    t.remove("a");
    assert_eq!(t.order_ids(), vec!["b".to_string(), "c".to_string()]);
    t.remove("unknown");
    assert_eq!(t.orders.len(), 2);
}

#[test]
fn remove_undoes_insert() {
    let mut t = tracker();
    t.insert(order("x", Side::No, 1, 1, 1));
    t.remove("x");
    assert_eq!(t.order_ids(), tracker().order_ids());
}

#[test]
fn remove_all_leaves_nothing() {
    let mut t = tracker();
    t.remove_all();
    assert!(t.orders.is_empty());
}

#[test]
fn pulling_a_side_leaves_the_other() {
    let mut t = tracker();
    let ids = t.ids_on_side(Side::Yes);
    assert_eq!(ids, vec!["a".to_string(), "c".to_string()]);
    t.remove_each(&ids);
    assert_eq!(t.pending_on_side(Side::Yes), 0);
    assert_eq!(t.pending_on_side(Side::No), 3);
}

#[test]
fn fill_reduces_and_finally_drops_an_order() {
    let mut t = tracker();
    assert!(t.can_record_fill("b", 1));
    t.record_fill("b", 1);
    assert_eq!(t.pending_on_side(Side::No), 2);
    t.record_fill("b", 2);
    assert_eq!(t.orders.len(), 2);
    t.record_fill("a", 5);
    assert_eq!(t.pending_on_side(Side::Yes), 4);
    t.record_fill("unknown", 1);
    assert_eq!(t.orders.len(), 1);
}

#[test]
fn order_fill_that_leaves_the_range_is_noticed() {
    let t = tracker();
    assert!(!t.can_record_fill("a", i64::MIN));
    assert!(t.can_record_fill("unknown", i64::MIN));
}

#[test]
fn stale_orders_are_dropped_after_ten_seconds() {
    let mut t = tracker();
    let dropped = t.drop_stale(10_000_000_000);
    assert!(dropped.is_empty());
    let dropped = t.drop_stale(10_000_000_001);
    assert_eq!(dropped, vec!["a".to_string()]);
    assert_eq!(t.order_ids(), vec!["b".to_string(), "c".to_string()]);
    let dropped = t.drop_stale(60_000_000_000);
    assert_eq!(dropped, vec!["b".to_string(), "c".to_string()]);
}
