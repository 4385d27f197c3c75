use kalshi_maker::config::Config;
use kalshi_maker::order_book::{OrderBook, Side};
use kalshi_maker::pairs::PairTracker;
use kalshi_maker::quoting::{can_compute_desired, compute_desired, DesiredOrders};
use kalshi_maker::reconcile::{reconcile, Action};
use kalshi_maker::tracker::{Order, Tracker};

fn book(yes_bid: i64, no_bid: i64) -> OrderBook {
    let mut b = OrderBook::new();
    b.apply_snapshot(&[(yes_bid, 10)], &[(no_bid, 10)], 1);
    b
}

fn settings(size: i64, levels: i64, max: i64) -> Config {
    let mut c = Config::default();
    c.order_size = size;
    c.grid_levels = levels;
    c.max_inventory = max;
    c
}

fn tracker(orders: &[(&str, Side, i64, i64)]) -> Tracker {
    let mut t = Tracker::new();
    for &(id, side, price, remaining) in orders {
        t.insert(Order { order_id: id.to_string(), side, price, remaining, placed_at: 0 });
    }
    t
}

fn desired(book: &OrderBook, inventory: i64, tracker: &Tracker, c: &Config) -> (Vec<i64>, Vec<i64>) {
    let pairs = PairTracker::new(inventory);
    assert!(can_compute_desired(book, &pairs, tracker, c));
    let d = compute_desired(book, &pairs, tracker, c);
    (d.yes_prices, d.no_prices)
}

#[test]
fn grid_starts_at_the_best_bids() {
    let d = desired(&book(40, 55), 0, &tracker(&[]), &settings(1, 2, 3));
    assert_eq!(d, (vec![40, 39], vec![55, 54]));
}

#[test]
fn grid_is_bounded_by_the_position() {
    let c = settings(1, 5, 3);
    assert_eq!(desired(&book(40, 55), 0, &tracker(&[]), &c), (vec![40, 39, 38], vec![55, 54, 53]));
    assert_eq!(desired(&book(40, 55), 2, &tracker(&[]), &c), (vec![40], vec![55, 54, 53, 52, 51]));
    assert_eq!(desired(&book(40, 55), -3, &tracker(&[]), &c).1, Vec::<i64>::new());
    assert_eq!(desired(&book(40, 55), 4, &tracker(&[]), &c).0, Vec::<i64>::new());
}

#[test]
fn pending_orders_take_up_room() {
    let c = settings(2, 5, 7);
    let t = tracker(&[("a", Side::Yes, 40, 3), ("b", Side::No, 55, 6)]);
    assert_eq!(desired(&book(40, 55), 0, &t, &c), (vec![40, 39], vec![]));
}

#[test]
fn grid_ends_at_one_cent() {
    let d = desired(&book(2, 1), 0, &tracker(&[]), &settings(1, 9, 100));
    assert_eq!(d, (vec![2, 1], vec![1]));
}

#[test]
fn nothing_is_wanted_without_an_uncrossed_book() {
    let none = (Vec::<i64>::new(), Vec::<i64>::new());
    let c = settings(1, 2, 3);
    let mut one_sided = OrderBook::new();
    one_sided.apply_snapshot(&[(40, 1)], &[], 1);
    assert_eq!(desired(&OrderBook::new(), 0, &tracker(&[]), &c), none);
    assert_eq!(desired(&one_sided, 0, &tracker(&[]), &c), none);
    assert_eq!(desired(&book(45, 55), 0, &tracker(&[]), &c), none);
    assert_eq!(desired(&book(60, 55), 0, &tracker(&[]), &c), none);
    assert_eq!(desired(&book(40, 55), 0, &tracker(&[]), &settings(1, 0, 3)), none);
    assert_eq!(desired(&book(40, 55), 0, &tracker(&[]), &settings(1, -4, 3)), none);
}

#[test]
fn orders_without_size_fill_all_levels() {
    let d = desired(&book(40, 55), 0, &tracker(&[]), &settings(0, 3, 0));
    assert_eq!(d, (vec![40, 39, 38], vec![55, 54, 53]));
}

#[test]
fn room_that_leaves_the_range_is_noticed() {
    let c = settings(1, 2, 3);
    let t = tracker(&[]);
    assert!(!can_compute_desired(&book(40, 55), &PairTracker::new(i64::MIN), &t, &c));
    assert!(!can_compute_desired(&book(40, 55), &PairTracker::new(i64::MIN + 1), &t, &c));
    assert!(can_compute_desired(&OrderBook::new(), &PairTracker::new(i64::MIN), &t, &c));
    let huge = settings(-9, 2, i64::MAX);
    assert!(!can_compute_desired(&book(40, 55), &PairTracker::new(0), &t, &huge));
}

fn wanted(yes: &[i64], no: &[i64]) -> DesiredOrders {
    DesiredOrders { yes_prices: yes.to_vec(), no_prices: no.to_vec() }
}

fn words(actions: &[Action]) -> Vec<String> {
    actions
        .iter()
        .map(|a| match a {
            Action::Cancel(id) => format!("cancel {}", id),
            Action::Place(side, price) => format!("place {:?} {}", side, price),
        })
        .collect()
}

#[test]
fn wanted_orders_are_compared_by_price() {
    assert!(wanted(&[1, 2], &[3]).same_as(&wanted(&[1, 2], &[3])));
    assert!(!wanted(&[1, 2], &[3]).same_as(&wanted(&[2, 1], &[3])));
    assert!(!wanted(&[1, 2], &[3]).same_as(&wanted(&[1, 2], &[])));
    assert!(wanted(&[4], &[]).clone().same_as(&wanted(&[4], &[])));
}

#[test]
fn everything_is_placed_where_nothing_rests() {
    let actions = reconcile(&wanted(&[40, 39], &[55]), &tracker(&[]));
    assert_eq!(words(&actions), vec!["place Yes 40", "place Yes 39", "place No 55"]);
}

#[test]
fn orders_at_wanted_prices_stay() {
    let t = tracker(&[("a", Side::Yes, 40, 1), ("b", Side::No, 55, 1)]);
    assert!(reconcile(&wanted(&[40], &[55]), &t).is_empty());
}

#[test]
fn order_of_wanted_prices_does_not_matter() {
    let t = tracker(&[("a", Side::Yes, 39, 1), ("b", Side::Yes, 40, 1)]);
    assert!(reconcile(&wanted(&[40, 39], &[]), &t).is_empty());
}

#[test]
fn orders_at_other_prices_are_canceled_first() {
    let t = tracker(&[
        ("a", Side::Yes, 41, 1),
        ("b", Side::No, 50, 1),
        ("c", Side::Yes, 40, 1),
    ]);
    let actions = reconcile(&wanted(&[40, 39], &[55]), &t);
    assert_eq!(words(&actions), vec!["cancel a", "place Yes 39", "cancel b", "place No 55"]);
}

#[test]
fn second_order_at_a_price_wanted_once_goes() {
    let t = tracker(&[("a", Side::Yes, 40, 1), ("b", Side::Yes, 40, 1)]);
    assert_eq!(words(&reconcile(&wanted(&[40], &[]), &t)), vec!["cancel b"]);
    assert_eq!(
        words(&reconcile(&wanted(&[40, 40, 40], &[]), &t)),
        vec!["place Yes 40"]
    );
}
