//! Laws of quoting and reconciling.

use crate::book_side;
use crate::config::Config;
use crate::order_book::{OrderBook, Side};
use crate::pairs::PairTracker;
use crate::quoting;
use crate::reconcile;
use crate::tracker;
use crate::tracker::Order;
use crate::tracker_laws;
use vstd::prelude::*;

verus! {

/// The wanted orders never take the position past the limit: if on one side all that is pending and
/// all that is wanted were filled, the position there would still be within `max_inventory`.
pub proof fn law_quotes_respect_max_inventory(
    book: OrderBook,
    pairs: PairTracker,
    orders: Seq<Order>,
    config: Config,
)
    ensures
        ({
            let yes = quoting::desired_prices(book, pairs, orders, config, Side::Yes);
            let no = quoting::desired_prices(book, pairs, orders, config, Side::No);
            &&& yes.len() > 0 ==> pairs.inventory + tracker::pending(orders, Side::Yes) + yes.len()
                * config.order_size <= config.max_inventory
            &&& no.len() > 0 ==> -pairs.inventory + tracker::pending(orders, Side::No) + no.len()
                * config.order_size <= config.max_inventory
        }),
{
    let levels = config.grid_levels as int;
    let size = config.order_size as int;
    let max = config.max_inventory as int;
    let yes_best = book.yes_bids.best_bid as int;
    let no_best = book.no_bids.best_bid as int;
    lemma_grid_within_room(yes_best, levels, quoting::capacity(pairs, orders, Side::Yes, max), size);
    lemma_grid_within_room(no_best, levels, quoting::capacity(pairs, orders, Side::No, max), size);
}

/// The contracts of a grid do not exceed the room it was built for.
proof fn lemma_grid_within_room(best: int, levels: int, room: int, size: int)
    ensures
        ({
            let n = quoting::grid_len(best, levels, room, size);
            &&& quoting::grid_prices(best, levels, room, size).len() == if n > 0 {
                n
            } else {
                0
            }
            &&& n >= 0
            &&& n > 0 ==> n * size <= room
        }),
{
    let n = quoting::grid_len(best, levels, room, size);
    if levels > 0 && best > 0 && room >= size {
        if size > 0 {
            assert(room / size >= 0 && (room / size) * size <= room) by (nonlinear_arith)
                requires
                    size > 0,
                    room >= size,
            ;
            assert(n * size <= (room / size) * size) by (nonlinear_arith)
                requires
                    size > 0,
                    n <= room / size,
            ;
        } else {
            assert(n * size <= size) by (nonlinear_arith)
                requires
                    size <= 0,
                    n >= 1,
            ;
        }
    }
}

/// The wanted prices of one side lie a cent apart from the best bid down, no more than `grid_levels`
/// of them, each between 1 and 99 cents.
pub proof fn law_quotes_form_a_grid(
    book: OrderBook,
    pairs: PairTracker,
    orders: Seq<Order>,
    config: Config,
    side: Side,
    i: int,
)
    requires
        0 <= i < quoting::desired_prices(book, pairs, orders, config, side).len(),
    ensures
        quoting::desired_prices(book, pairs, orders, config, side).len() <= config.grid_levels,
        quoting::desired_prices(book, pairs, orders, config, side)[i] == book.bids(side).best_bid
            - i,
        1 <= quoting::desired_prices(book, pairs, orders, config, side)[i] <= 99,
{
    let best = book.bids(side).best_bid as int;
    let levels = config.grid_levels as int;
    let room = quoting::capacity(pairs, orders, side, config.max_inventory as int);
    lemma_grid_within_room(best, levels, room, config.order_size as int);
}

/// No wanted bid crosses the book: a YES bid stays below the ask, a NO bid stays below the price at
/// which it would take the YES bid, and a wanted YES and NO together cost less than the 100 cents
/// that the pair pays.
pub proof fn law_quotes_never_cross(
    book: OrderBook,
    pairs: PairTracker,
    orders: Seq<Order>,
    config: Config,
    i: int,
    j: int,
)
    requires
        0 <= i < quoting::desired_prices(book, pairs, orders, config, Side::Yes).len(),
        0 <= j < quoting::desired_prices(book, pairs, orders, config, Side::No).len(),
    ensures
        ({
            let yes = quoting::desired_prices(book, pairs, orders, config, Side::Yes)[i];
            let no = quoting::desired_prices(book, pairs, orders, config, Side::No)[j];
            &&& yes < book.yes_ask()
            &&& 100 - no > book.yes_bids.best_bid
            &&& yes + no < 100
        }),
{
    law_quotes_form_a_grid(book, pairs, orders, config, Side::Yes, i);
    law_quotes_form_a_grid(book, pairs, orders, config, Side::No, j);
}

/// Nothing is wanted while a side of the book is empty, or the book is crossed or locked.
pub proof fn law_no_quotes_without_two_sides(
    book: OrderBook,
    pairs: PairTracker,
    orders: Seq<Order>,
    config: Config,
    side: Side,
)
    requires
        book.yes_bids.best_bid <= 0 || book.no_bids.best_bid <= 0 || book.yes_bids.best_bid
            + book.no_bids.best_bid >= 100,
    ensures
        quoting::desired_prices(book, pairs, orders, config, side).len() == 0,
{
}

/// Nothing more is wanted on a side that has no room for another order.
pub proof fn law_no_quotes_without_room(
    book: OrderBook,
    pairs: PairTracker,
    orders: Seq<Order>,
    config: Config,
    side: Side,
)
    requires
        quoting::capacity(pairs, orders, side, config.max_inventory as int) < config.order_size,
    ensures
        quoting::desired_prices(book, pairs, orders, config, side).len() == 0,
{
}

/// Once the actions have succeeded, the orders of a side are the wanted ones: at every price those
/// that stayed and those placed are as many as are wanted there.
pub proof fn law_reconcile_reaches_the_wanted_orders(
    desired: Seq<i64>,
    current: Seq<Order>,
    price: i64,
)
    ensures
        reconcile::times(reconcile::prices_of(reconcile::kept(desired, current)), price)
            + reconcile::times(
            reconcile::missing(desired, reconcile::prices_of(current)),
            price,
        ) == reconcile::times(desired, price),
{
    reconcile::lemma_missing_times(desired, reconcile::prices_of(current), price);
    lemma_kept_times(desired, current, price);
}

/// At each price as many orders stay as are wanted and rest there.
pub proof fn lemma_kept_times(desired: Seq<i64>, current: Seq<Order>, price: i64)
    ensures
        reconcile::times(reconcile::prices_of(reconcile::kept(desired, current)), price)
            == book_side::min_of(
            reconcile::times(desired, price),
            reconcile::times(reconcile::prices_of(current), price),
        ),
    decreases current.len(),
{
    reconcile::lemma_times(desired, price);
    if current.len() > 0 {
        let before = current.drop_last();
        let order = current.last();
        let stay = reconcile::kept(desired, before);
        lemma_kept_times(desired, before, price);
        assert(reconcile::prices_of(current) =~= reconcile::prices_of(before).push(order.price));
        assert(reconcile::prices_of(stay.push(order)) =~= reconcile::prices_of(stay).push(
            order.price,
        ));
        reconcile::lemma_times_push(reconcile::prices_of(before), order.price, price);
        reconcile::lemma_times_push(reconcile::prices_of(stay), order.price, price);
    }
}

/// Orders that already are the wanted ones are left alone: nothing is canceled, nothing placed.
pub proof fn law_reconciled_orders_are_left_alone(
    desired: Seq<i64>,
    current: Seq<Order>,
    side: Side,
)
    requires
        forall|p: i64| #[trigger]
            reconcile::times(desired, p) == reconcile::times(reconcile::prices_of(current), p),
    ensures
        reconcile::side_actions(desired, current, side).len() == 0,
{
    let taken = reconcile::prices_of(current);
    let missing = reconcile::missing(desired, taken);
    if missing.len() > 0 {
        let price = missing[0];
        assert(reconcile::times(desired, price) == reconcile::times(taken, price));
        reconcile::lemma_missing_times(desired, taken, price);
        reconcile::lemma_times(missing, price);
        assert(missing.contains(price));
    }
    assert forall|p: i64|
        #[trigger] reconcile::times(reconcile::prices_of(current), p) <= reconcile::times(
            desired,
            p,
        ) by {
        assert(reconcile::times(desired, p) == reconcile::times(taken, p));
    }
    lemma_wanted_orders_stay(desired, current);
}

/// Where no price holds more orders than are wanted there, all stay.
proof fn lemma_wanted_orders_stay(desired: Seq<i64>, current: Seq<Order>)
    requires
        forall|p: i64|
            #[trigger] reconcile::times(reconcile::prices_of(current), p) <= reconcile::times(
                desired,
                p,
            ),
    ensures
        reconcile::dropped(desired, current).len() == 0,
    decreases current.len(),
{
    if current.len() > 0 {
        let before = current.drop_last();
        let order = current.last();
        let prices = reconcile::prices_of(before);
        assert(reconcile::prices_of(current) =~= prices.push(order.price));
        assert forall|p: i64|
            #[trigger] reconcile::times(prices, p) <= reconcile::times(desired, p) by {
            reconcile::lemma_times_push(prices, order.price, p);
            assert(reconcile::times(reconcile::prices_of(current), p) <= reconcile::times(
                desired,
                p,
            ));
        }
        lemma_wanted_orders_stay(desired, before);
        reconcile::lemma_times_push(prices, order.price, order.price);
        assert(reconcile::times(reconcile::prices_of(current), order.price) <= reconcile::times(
            desired,
            order.price,
        ));
    }
}

/// Removing the canceled orders of a side from it leaves exactly the orders that stay.
pub proof fn law_cancels_leave_the_kept_orders(desired: Seq<i64>, current: Seq<Order>)
    requires
        tracker::distinct_ids(current),
    ensures
        tracker::without_all(
            current,
            tracker::ids_of(reconcile::dropped(desired, current)),
        ) == reconcile::kept(desired, current),
{
    let ids = tracker::ids_of(reconcile::dropped(desired, current));
    tracker_laws::law_remove_each_drops_those_orders_alone(current, ids);
    lemma_kept_are_the_others(desired, current);
}

/// Every canceled order is one of the current ones.
pub proof fn lemma_dropped_are_current(desired: Seq<i64>, current: Seq<Order>)
    ensures
        forall|k: int|
            0 <= k < reconcile::dropped(desired, current).len() ==> current.contains(
                #[trigger] reconcile::dropped(desired, current)[k],
            ),
    decreases current.len(),
{
    if current.len() > 0 {
        let before = current.drop_last();
        lemma_dropped_are_current(desired, before);
        let gone = reconcile::dropped(desired, before);
        let all = reconcile::dropped(desired, current);
        assert forall|k: int| 0 <= k < all.len() implies current.contains(#[trigger] all[k]) by {
            if k < gone.len() {
                assert(all[k] == gone[k]);
                assert(before.contains(gone[k]));
                let j = choose|j: int| 0 <= j < before.len() && before[j] == gone[k];
                assert(current[j] == all[k]);
            } else {
                assert(current[current.len() - 1] == all[k]);
            }
        }
    }
}

/// The orders that stay are those whose id is not canceled.
proof fn lemma_kept_are_the_others(desired: Seq<i64>, current: Seq<Order>)
    requires
        tracker::distinct_ids(current),
    ensures
        current.filter(
            |o: Order|
                !tracker_laws::has_id(
                    tracker::ids_of(reconcile::dropped(desired, current)),
                    o.order_id@,
                ),
        ) == reconcile::kept(desired, current),
    decreases current.len(),
{
    let gone = reconcile::dropped(desired, current);
    let ids = tracker::ids_of(gone);
    let left = |o: Order| !tracker_laws::has_id(ids, o.order_id@);
    reveal(Seq::filter);
    if current.len() == 0 {
        assert(current.filter(left) =~= seq![]);
    } else {
        let before = current.drop_last();
        let order = current.last();
        let gone_before = reconcile::dropped(desired, before);
        let ids_before = tracker::ids_of(gone_before);
        let left_before = |o: Order| !tracker_laws::has_id(ids_before, o.order_id@);
        assert(tracker::distinct_ids(before));
        lemma_kept_are_the_others(desired, before);
        lemma_dropped_are_current(desired, before);
        assert forall|i: int| 0 <= i < before.len() implies left(#[trigger] before[i])
            == left_before(before[i]) by {
            let x = before[i].order_id@;
            assert(current[i].order_id@ != current[current.len() - 1].order_id@);
            if tracker_laws::has_id(ids, x) {
                let k = choose|k: int| 0 <= k < ids.len() && (#[trigger] ids[k])@ == x;
                assert(gone[k].order_id@ == x);
                assert(k < gone_before.len());
                assert(ids_before[k]@ == x);
            }
            if tracker_laws::has_id(ids_before, x) {
                let k = choose|k: int| 0 <= k < ids_before.len() && (#[trigger] ids_before[k])@
                    == x;
                assert(gone[k] == gone_before[k]);
                assert(ids[k]@ == x);
            }
        }
        tracker_laws::lemma_filter_agrees(before, left, left_before);
        let price = order.price;
        if reconcile::times(reconcile::prices_of(before), price) < reconcile::times(
            desired,
            price,
        ) {
            if tracker_laws::has_id(ids, order.order_id@) {
                let k = choose|k: int| 0 <= k < ids.len() && (#[trigger] ids[k])@
                    == order.order_id@;
                assert(before.contains(gone_before[k]));
                let j = choose|j: int| 0 <= j < before.len() && before[j] == gone_before[k];
                assert(current[j].order_id@ != current[current.len() - 1].order_id@);
            }
        } else {
            assert(ids[gone.len() - 1]@ == order.order_id@);
        }
    }
}

/// The best bid of one side.
pub open spec fn own_bid(book: OrderBook, side: Side) -> int {
    match side {
        Side::Yes => book.yes_bids.best_bid as int,
        Side::No => book.no_bids.best_bid as int,
    }
}

/// The position on one side if all that is pending there were filled.
pub open spec fn committed(pairs: PairTracker, orders: Seq<Order>, side: Side) -> int {
    match side {
        Side::Yes => pairs.inventory + tracker::pending(orders, Side::Yes),
        Side::No => -pairs.inventory + tracker::pending(orders, Side::No),
    }
}

/// Whether a bid at `price` is to stand on one side: both sides of the book have a bid and together
/// they stay below 100, the price is no higher than the best bid and no lower than one cent, it is
/// among the first `grid_levels` prices from the best bid down, and with one order at each price from
/// the best bid down to it the position stays within `max_inventory`. Orders that buy nothing are
/// limited only by the room for one of them.
pub open spec fn belongs_to_grid(
    book: OrderBook,
    pairs: PairTracker,
    orders: Seq<Order>,
    config: Config,
    side: Side,
    price: int,
) -> bool {
    let best = own_bid(book, side);
    let orders_to_here = if config.order_size > 0 {
        best - price + 1
    } else {
        1
    };
    &&& book.yes_bids.best_bid > 0
    &&& book.no_bids.best_bid > 0
    &&& book.yes_bids.best_bid + book.no_bids.best_bid < 100
    &&& 1 <= price <= best
    &&& best - price < config.grid_levels
    &&& committed(pairs, orders, side) + orders_to_here * config.order_size <= config.max_inventory
}

/// A price is wanted exactly when it belongs to the grid, and then once.
pub proof fn law_wanted_prices_are_the_grid(
    book: OrderBook,
    pairs: PairTracker,
    orders: Seq<Order>,
    config: Config,
    side: Side,
    price: i64,
)
    ensures
        reconcile::times(quoting::desired_prices(book, pairs, orders, config, side), price)
            == if belongs_to_grid(book, pairs, orders, config, side, price as int) {
            1int
        } else {
            0
        },
        quoting::desired_prices(book, pairs, orders, config, side).contains(price)
            <==> belongs_to_grid(book, pairs, orders, config, side, price as int),
{
    let best = own_bid(book, side);
    let levels = config.grid_levels as int;
    let size = config.order_size as int;
    let room = config.max_inventory - committed(pairs, orders, side);
    let wanted = quoting::desired_prices(book, pairs, orders, config, side);
    if book.yes_bids.best_bid > 0 && book.no_bids.best_bid > 0 && book.yes_bids.best_bid
        + book.no_bids.best_bid < 100 {
        assert(wanted == quoting::grid_prices(best, levels, room, size));
        lemma_grid_within_room(best, levels, room, size);
        lemma_grid_times(best, levels, room, size, price);
        let n = quoting::grid_len(best, levels, room, size);
        let k = best - price + 1;
        if size > 0 {
            if k >= 1 {
                assert(k <= room / size <==> k * size <= room) by (nonlinear_arith)
                    requires
                        size > 0,
                        k >= 1,
                ;
                assert(k * size >= size) by (nonlinear_arith)
                    requires
                        size > 0,
                        k >= 1,
                ;
            }
        } else {
            assert(1 * size == size);
        }
    } else {
        assert(wanted =~= seq![]);
    }
    reconcile::lemma_times(wanted, price);
}

/// A grid holds each of its prices once.
proof fn lemma_grid_times(best: int, levels: int, room: int, size: int, price: i64)
    requires
        0 <= best <= 99,
    ensures
        reconcile::times(quoting::grid_prices(best, levels, room, size), price) == if best
            - quoting::grid_len(best, levels, room, size) < price <= best {
            1int
        } else {
            0
        },
{
    lemma_grid_within_room(best, levels, room, size);
    let n = quoting::grid_len(best, levels, room, size);
    let prices = quoting::grid_prices(best, levels, room, size);
    lemma_run_times(best, n, price);
    assert(prices =~= Seq::new(n as nat, |i: int| (best - i) as i64));
}

proof fn lemma_run_times(best: int, n: int, price: i64)
    requires
        0 <= n <= best <= 99,
    ensures
        reconcile::times(Seq::new(n as nat, |i: int| (best - i) as i64), price) == if best - n < price
            <= best {
            1int
        } else {
            0
        },
    decreases n,
{
    let run = Seq::new(n as nat, |i: int| (best - i) as i64);
    if n > 0 {
        lemma_run_times(best, n - 1, price);
        assert(run.drop_last() =~= Seq::new((n - 1) as nat, |i: int| (best - i) as i64));
    }
}

/// Whenever there is a market and room for an order, the grid is as deep as it can be: down to one
/// cent, to the number of levels set, or to the last order that there is room for, whichever comes
/// first.
pub proof fn law_grid_is_as_deep_as_it_can_be(
    book: OrderBook,
    pairs: PairTracker,
    orders: Seq<Order>,
    config: Config,
    side: Side,
)
    requires
        book.yes_bids.best_bid > 0,
        book.no_bids.best_bid > 0,
        book.yes_bids.best_bid + book.no_bids.best_bid < 100,
        config.grid_levels > 0,
        config.order_size > 0,
        committed(pairs, orders, side) + config.order_size <= config.max_inventory,
    ensures
        ({
            let n = quoting::desired_prices(book, pairs, orders, config, side).len() as int;
            let room = config.max_inventory - committed(pairs, orders, side);
            &&& n > 0
            &&& n <= config.grid_levels && n <= own_bid(book, side) && n <= room
                / config.order_size as int
            &&& n == config.grid_levels || n == own_bid(book, side) || n == room
                / config.order_size as int
        }),
{
    let best = own_bid(book, side);
    let levels = config.grid_levels as int;
    let size = config.order_size as int;
    let room = config.max_inventory - committed(pairs, orders, side);
    assert(room / size >= 1) by (nonlinear_arith)
        requires
            size > 0,
            room >= size,
    ;
    lemma_grid_within_room(best, levels, room, size);
    assert(quoting::desired_prices(book, pairs, orders, config, side) == quoting::grid_prices(
        best,
        levels,
        room,
        size,
    ));
}

/// The best bid itself is quoted wherever anything is.
pub proof fn law_best_bid_is_quoted_first(
    book: OrderBook,
    pairs: PairTracker,
    orders: Seq<Order>,
    config: Config,
    side: Side,
)
    requires
        quoting::desired_prices(book, pairs, orders, config, side).len() > 0,
    ensures
        quoting::desired_prices(book, pairs, orders, config, side)[0] == own_bid(book, side),
        quoting::desired_prices(book, pairs, orders, config, side).last() == own_bid(book, side)
            - quoting::desired_prices(book, pairs, orders, config, side).len() + 1,
{
    let n = quoting::desired_prices(book, pairs, orders, config, side).len() as int;
    law_quotes_form_a_grid(book, pairs, orders, config, side, 0);
    law_quotes_form_a_grid(book, pairs, orders, config, side, n - 1);
}

/// The two sides are treated alike: with YES and NO exchanged in the book, the position and the
/// orders, the prices wanted on one side become those wanted on the other.
pub proof fn law_sides_are_quoted_alike(
    book: OrderBook,
    mirror: OrderBook,
    pairs: PairTracker,
    mirror_pairs: PairTracker,
    orders: Seq<Order>,
    mirror_orders: Seq<Order>,
    config: Config,
    price: i64,
)
    requires
        mirror.yes_bids.best_bid == book.no_bids.best_bid,
        mirror.no_bids.best_bid == book.yes_bids.best_bid,
        mirror_pairs.inventory == -pairs.inventory,
        tracker::pending(mirror_orders, Side::Yes) == tracker::pending(orders, Side::No),
        tracker::pending(mirror_orders, Side::No) == tracker::pending(orders, Side::Yes),
    ensures
        quoting::desired_prices(book, pairs, orders, config, Side::Yes).contains(price)
            <==> quoting::desired_prices(
            mirror,
            mirror_pairs,
            mirror_orders,
            config,
            Side::No,
        ).contains(price),
{
    law_wanted_prices_are_the_grid(book, pairs, orders, config, Side::Yes, price);
    law_wanted_prices_are_the_grid(mirror, mirror_pairs, mirror_orders, config, Side::No, price);
}

/// What is canceled and placed on one side is no more than it takes: at each price the orders that
/// exceed the wanted number go, and the wanted ones without an order are placed.
pub proof fn law_reconcile_changes_no_more_than_needed(
    desired: Seq<i64>,
    current: Seq<Order>,
    price: i64,
)
    ensures
        ({
            let wanted = reconcile::times(desired, price);
            let resting = reconcile::times(reconcile::prices_of(current), price);
            let gone = reconcile::times(
                reconcile::prices_of(reconcile::dropped(desired, current)),
                price,
            );
            let placed = reconcile::times(
                reconcile::missing(desired, reconcile::prices_of(current)),
                price,
            );
            &&& resting <= wanted ==> gone == 0 && placed == wanted - resting
            &&& resting >= wanted ==> placed == 0 && gone == resting - wanted
        }),
{
    reconcile::lemma_missing_times(desired, reconcile::prices_of(current), price);
    lemma_dropped_times(desired, current, price);
}

/// At each price as many orders go as rest there beyond the wanted ones.
proof fn lemma_dropped_times(desired: Seq<i64>, current: Seq<Order>, price: i64)
    ensures
        reconcile::times(reconcile::prices_of(reconcile::dropped(desired, current)), price)
            == book_side::max_of(
            reconcile::times(reconcile::prices_of(current), price) - reconcile::times(
                desired,
                price,
            ),
            0,
        ),
    decreases current.len(),
{
    reconcile::lemma_times(desired, price);
    if current.len() > 0 {
        let before = current.drop_last();
        let order = current.last();
        let gone = reconcile::dropped(desired, before);
        lemma_dropped_times(desired, before, price);
        assert(reconcile::prices_of(current) =~= reconcile::prices_of(before).push(order.price));
        assert(reconcile::prices_of(gone.push(order)) =~= reconcile::prices_of(gone).push(
            order.price,
        ));
        reconcile::lemma_times_push(reconcile::prices_of(before), order.price, price);
        reconcile::lemma_times_push(reconcile::prices_of(gone), order.price, price);
    }
}

/// Counting how often a price occurs: one more price adds one at that price, and nothing elsewhere.
pub proof fn law_counting_prices(prices: Seq<i64>, added: i64, price: i64)
    ensures
        reconcile::times(seq![], price) == 0,
        reconcile::times(prices.push(added), added) == reconcile::times(prices, added) + 1,
        price != added ==> reconcile::times(prices.push(added), price) == reconcile::times(
            prices,
            price,
        ),
{
    reconcile::lemma_times_push(prices, added, price);
    reconcile::lemma_times_push(prices, added, added);
}

/// The settings and positions of ordinary size are taken: with numbers within a billion nothing
/// overflows.
pub proof fn law_ordinary_positions_fit(
    book: OrderBook,
    pairs: PairTracker,
    orders: Seq<Order>,
    config: Config,
)
    requires
        -1_000_000_000 <= pairs.inventory <= 1_000_000_000,
        -1_000_000_000 <= config.max_inventory <= 1_000_000_000,
        -1_000_000_000 <= config.order_size <= 1_000_000_000,
        orders.len() <= 1_000_000,
        forall|i: int|
            0 <= i < orders.len() ==> -1_000_000_000 <= (#[trigger] orders[i]).remaining
                <= 1_000_000_000,
    ensures
        quoting::desired_fits(book, pairs, orders, config),
{
    if book.quoted() {
        lemma_ordinary_side(book, pairs, orders, config, Side::Yes);
        lemma_ordinary_side(book, pairs, orders, config, Side::No);
    }
}

proof fn lemma_ordinary_side(
    book: OrderBook,
    pairs: PairTracker,
    orders: Seq<Order>,
    config: Config,
    side: Side,
)
    requires
        book.quoted(),
        -1_000_000_000 <= pairs.inventory <= 1_000_000_000,
        -1_000_000_000 <= config.max_inventory <= 1_000_000_000,
        -1_000_000_000 <= config.order_size <= 1_000_000_000,
        orders.len() <= 1_000_000,
        forall|i: int|
            0 <= i < orders.len() ==> -1_000_000_000 <= (#[trigger] orders[i]).remaining
                <= 1_000_000_000,
    ensures
        quoting::capacity_fits(book, pairs, orders, config, side),
{
    tracker_laws::law_ordinary_orders_add_up(orders, side);
    assert(orders.take(orders.len() as int) =~= orders);
    tracker_laws::lemma_pending_bound(orders, side);
    let best = book.bids(side).best_bid as int;
    let room = quoting::capacity(pairs, orders, side, config.max_inventory as int);
    let size = config.order_size as int;
    let n = quoting::grid_len(best, config.grid_levels as int, room, size);
    lemma_grid_within_room(best, config.grid_levels as int, room, size);
    assert(n <= 99);
    assert(-100_000_000_000 <= n * size <= 100_000_000_000) by (nonlinear_arith)
        requires
            0 <= n <= 99,
            -1_000_000_000 <= size <= 1_000_000_000,
    ;
}

} // verus!
