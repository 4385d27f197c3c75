//! Laws of outcomes: what holds of whatever a call can return and leave behind, in the numbers that went
//! in and came out.

use crate::book_laws;
use crate::book_side;
use crate::book_side::BookSide;
use crate::config;
use crate::config::{Config, EnvVars};
use crate::dotenv;
use crate::dotenv_laws;
use crate::numbers;
use crate::order_book::{BookEvent, BookEventDetector, Imbalance, OrderBook, Side, TopOfBook};
use crate::pairs::PairTracker;
use crate::pairs_laws;
use crate::quoting;
use crate::quoting::DesiredOrders;
use crate::quoting_laws;
use crate::rate;
use crate::reconcile;
use crate::reconcile::Action;
use crate::rest;
use crate::rest::{BatchCancelReq, PlaceReq, Pos};
use crate::rotation;
use crate::rotation::UtcTime;
use crate::session::{CancelStep, Plan, Reaction, Session, WsMessage};
use crate::session_laws;
use crate::sweep;
use crate::sweep::SweepDetector;
use crate::sweep_laws;
use crate::tracker;
use crate::tracker::{Order, Tracker};
use crate::tracker_laws;
use vstd::prelude::*;

verus! {

/// A snapshot leaves at each price the quantity listed for it last and nothing elsewhere, and the best
/// bid is the highest price with contracts on it.
pub proof fn law_apply_snapshot(
    side: &mut BookSide,
    levels: &[(i64, i64)],
    out: (),
    i: int,
    p: int,
)
    requires
        call_ensures(BookSide::apply_snapshot, (side, levels), out),
    ensures
        0 <= i < levels@.len() && 1 <= levels@[i].0 <= 99 && (forall|j: int|
            i < j < levels@.len() ==> (#[trigger] levels@[j]).0 != levels@[i].0)
            ==> final(side).quantities@[levels@[i].0 as int] == levels@[i].1,
        0 <= p < 100 && (p == 0 || forall|j: int|
            0 <= j < levels@.len() ==> (#[trigger] levels@[j]).0 != p)
            ==> final(side).quantities@[p] == 0,
        final(side).best_bid == 0 || (1 <= final(side).best_bid <= 99
            && final(side).quantities@[final(side).best_bid as int] > 0),
        1 <= p <= 99 && final(side).quantities@[p] > 0 ==> p <= final(side).best_bid,
        final(side).is_snapshot(levels@),
{
    book_laws::law_snapshot_holds_the_last_quantities(*final(side), levels@, i, p);
    book_laws::law_snapshot_best_bid(*final(side), levels@, p);
}

/// A delta adds its contracts at its price, stopping at 0, and the best bid is the highest price with
/// contracts on it.
pub proof fn law_apply_delta(side: &mut BookSide, price: i64, delta: i64, out: (), p: int)
    requires
        old(side).wf(),
        old(side).delta_fits(price, delta),
        call_ensures(BookSide::apply_delta, (side, price, delta), out),
    ensures
        ({
            let was = old(side).quantities@;
            let is = final(side).quantities@;
            let best = final(side).best_bid;
            &&& 1 <= price <= 99 && was[price as int] + delta >= 0 ==> is[price as int]
                == was[price as int] + delta
            &&& 1 <= price <= 99 && was[price as int] + delta < 0 ==> is[price as int] == 0
            &&& 1 <= price <= 99 ==> final(side).total_qty - old(side).total_qty
                == is[price as int] - was[price as int]
            &&& 0 <= p < 100 && p != price ==> is[p] == was[p]
            &&& best == 0 || (1 <= best <= 99 && is[best as int] > 0)
            &&& 1 <= p <= 99 && is[p] > 0 ==> p <= best
        }),
{
    book_laws::law_delta_changes_one_level(*old(side), *final(side), price, delta, p);
    book_laws::law_delta_best_bid(*old(side), *final(side), price, delta, p);
}

/// The best bid below a price is the highest price under it with contracts on it, 0 without one.
pub proof fn law_best_bid_below(side: BookSide, below: i64, best: i64, p: int)
    requires
        side.wf(),
        call_ensures(BookSide::best_bid_below, (&side, below), best),
    ensures
        best == 0 || (1 <= best <= 99 && best < below && side.quantities@[best as int] > 0),
        1 <= p <= 99 && p < below && side.quantities@[p] > 0 ==> p <= best,
{
    book_laws::law_best_bid_below(side, below as int, best as int, p);
}

/// The top levels are the best ones, best first, as many as asked for or all.
pub proof fn law_top_n(side: BookSide, n: usize, top: Vec<(i64, i64)>, i: int, j: int, p: int)
    requires
        side.wf(),
        call_ensures(BookSide::top_n, (&side, n), top),
    ensures
        top@.len() <= n,
        0 <= i < top@.len() ==> 1 <= top@[i].0 <= 99 && top@[i].1 > 0 && top@[i].1
            == side.quantities@[top@[i].0 as int],
        0 <= i < j < top@.len() ==> top@[i].0 > top@[j].0,
        1 <= p <= 99 && side.quantities@[p] > 0 ==> (exists|k: int|
            0 <= k < top@.len() && (#[trigger] top@[k]).0 == p) || (top@.len() == n && forall|k: int|
            0 <= k < n ==> (#[trigger] top@[k]).0 > p),
{
    book_laws::law_top_levels(side, n as int, i, j, p);
}

/// What the book says of its top: the quantity at a best bid, the ask, the spread, the quotes and how
/// the quantities compare.
pub proof fn law_top_of_the_book(
    book: OrderBook,
    qty: i64,
    bid: i64,
    ask: i64,
    spread: i64,
    top: Option<TopOfBook>,
    imbalance: Imbalance,
)
    requires
        book.wf(),
        call_ensures(BookSide::best_bid_qty, (&book.yes_bids,), qty),
        call_ensures(OrderBook::best_yes_bid, (&book,), bid),
        call_ensures(OrderBook::best_yes_ask, (&book,), ask),
        call_ensures(OrderBook::yes_spread, (&book,), spread),
        call_ensures(OrderBook::top_of_book, (&book,), top),
        call_ensures(OrderBook::imbalance, (&book,), imbalance),
    ensures
        bid == book.yes_bids.best_bid,
        bid > 0 ==> qty == book.yes_bids.quantities@[bid as int],
        bid <= 0 ==> qty == 0,
        book.no_bids.best_bid > 0 ==> ask + book.no_bids.best_bid == 100,
        book.no_bids.best_bid <= 0 ==> ask == 0,
        bid > 0 && ask > 0 ==> bid + spread == ask,
        bid <= 0 || ask <= 0 ==> spread == i64::MAX,
        top is Some <==> bid > 0 && ask > bid,
        top matches Some(t) ==> t.bid == bid && t.ask == ask && t.bid_qty
            == book.yes_bids.quantities@[bid as int] && t.ask_qty == book.no_bids.quantities@[100
            - ask],
        ask > 0 ==> imbalance == (Imbalance::Ratio {
            bid_qty: qty,
            ask_qty: book.no_bids.quantities@[100 - ask],
        }),
        ask <= 0 && bid > 0 ==> imbalance == Imbalance::BidOnly,
        ask <= 0 && bid <= 0 ==> imbalance == Imbalance::Neither,
{
    book_laws::law_best_quantity(book.yes_bids);
    book_laws::law_best_quantity(book.no_bids);
    book_laws::law_ask_mirrors_the_no_bid(book);
    book_laws::law_top_of_book(book);
    book_laws::law_imbalance(book);
    book_laws::law_spread_from_bids(book);
}

/// Looking one cent deeper adds what stands there on each side.
pub proof fn law_near_bbo_depth(book: OrderBook, range: i64, depth: i64, deeper: i64)
    requires
        book.wf(),
        range < i64::MAX,
        call_ensures(OrderBook::near_bbo_depth, (&book, range), depth),
        call_ensures(OrderBook::near_bbo_depth, (&book, (range + 1) as i64), deeper),
    ensures
        range < 0 ==> depth == 0,
        range >= -1 ==> deeper - depth == book_laws::level_at(
            book.yes_bids,
            book.yes_bids.best_bid - range - 1,
        ) + book_laws::level_at(book.no_bids, book.no_bids.best_bid - range - 1),
{
    book_laws::law_depth_cent_by_cent(book, range as int);
}

/// The book takes a delta exactly when its number follows, on the side that it names alone; a snapshot
/// replaces both sides.
pub proof fn law_book_updates(
    book: &mut OrderBook,
    side: Side,
    price: i64,
    delta: i64,
    seq: u64,
    in_order: bool,
    other: &mut OrderBook,
    yes_levels: &[(i64, i64)],
    no_levels: &[(i64, i64)],
    out: (),
)
    requires
        call_ensures(OrderBook::apply_delta, (book, side, price, delta, seq), in_order),
        call_ensures(OrderBook::apply_snapshot, (other, yes_levels, no_levels, seq), out),
    ensures
        in_order <==> seq == old(book).seq + 1,
        !in_order ==> *final(book) == *old(book),
        in_order ==> final(book).seq == seq && final(book).initialized == old(book).initialized,
        in_order && side == Side::Yes ==> final(book).no_bids == old(book).no_bids
            && old(book).yes_bids.delta_applied(final(book).yes_bids, price, delta),
        in_order && side == Side::No ==> final(book).yes_bids == old(book).yes_bids
            && old(book).no_bids.delta_applied(final(book).no_bids, price, delta),
        final(other).yes_bids.is_snapshot(yes_levels@),
        final(other).no_bids.is_snapshot(no_levels@),
        final(other).seq == seq,
        final(other).initialized,
{
}

/// Two looks at books: the second reports one event exactly when the bid or the ask differs between
/// them, with the old and the new ones.
pub proof fn law_detect(
    detector: &mut BookEventDetector,
    first: OrderBook,
    second: OrderBook,
    again: &mut BookEventDetector,
    events: Vec<BookEvent>,
    next: Vec<BookEvent>,
)
    requires
        call_ensures(BookEventDetector::detect, (detector, &first), events),
        *old(again) == *final(detector),
        call_ensures(BookEventDetector::detect, (again, &second), next),
        first.wf() && second.wf(),
    ensures
        old(detector).last_seen() is None ==> events@.len() == 0,
        next@.len() == 1 <==> first.yes_bids.best_bid != second.yes_bids.best_bid
            || first.no_bids.best_bid != second.no_bids.best_bid,
        next@.len() <= 1,
        next@.len() == 1 ==> next@[0] == (BookEvent::TopOfBookChanged {
            old_bid: first.yes_bids.best_bid,
            old_ask: first.yes_ask() as i64,
            new_bid: second.yes_bids.best_bid,
            new_ask: second.yes_ask() as i64,
        }),
{
    book_laws::law_ask_mirrors_the_no_bid(first);
    book_laws::law_ask_mirrors_the_no_bid(second);
    book_laws::law_spread_from_bids(first);
    book_laws::law_spread_from_bids(second);
    book_laws::law_best_bid_has_contracts(first.no_bids);
    book_laws::law_best_bid_has_contracts(second.no_bids);
}

/// A new detector, pair tracker and book know nothing; the window is as many milliseconds long as
/// asked for.
pub proof fn law_beginnings(
    window_ms: u64,
    threshold: i64,
    detector: SweepDetector,
    position: i64,
    pairs: PairTracker,
    book: OrderBook,
    events: BookEventDetector,
    orders: Tracker,
)
    requires
        call_ensures(SweepDetector::new, (window_ms, threshold), detector),
        call_ensures(PairTracker::new, (position,), pairs),
        call_ensures(OrderBook::new, (), book),
        call_ensures(BookEventDetector::new, (), events),
        call_ensures(Tracker::new, (), orders),
    ensures
        detector.trades@.len() == 0,
        detector.window_nanos == 1_000_000 * window_ms,
        detector.threshold == threshold,
        detector.prev_yes_bid == 0 && detector.prev_no_bid == 0,
        pairs.inventory == position,
        pairs.yes_legs@.len() == 0 && pairs.no_legs@.len() == 0,
        pairs.pairs_completed == 0 && pairs.realized_pnl == 0,
        book.yes_bids.best_bid == 0 && book.no_bids.best_bid == 0 && book.seq == 0
            && !book.initialized,
        events.last_seen() is None,
        orders.orders@.len() == 0,
{
    book_laws::law_fresh_book_is_empty(book, 0);
}

/// A check finds a side swept exactly when takers bought more than the threshold of the other contract
/// within the window and its own bid has fallen by three cents or more; YES goes first. The bids are
/// remembered, and only a sweep empties the record.
pub proof fn law_check_at(
    detector: &mut SweepDetector,
    now: u128,
    yes_bid: i64,
    no_bid: i64,
    pull: Option<Side>,
)
    requires
        call_ensures(SweepDetector::check_at, (detector, now, yes_bid, no_bid), pull),
    ensures
        ({
            let recent = sweep::within_window(
                old(detector).trades@,
                now,
                old(detector).window_nanos,
            );
            let yes_swept = sweep::taker_volume(recent, false) > old(detector).threshold && yes_bid
                + 3 <= old(detector).prev_yes_bid;
            let no_swept = sweep::taker_volume(recent, true) > old(detector).threshold && no_bid + 3
                <= old(detector).prev_no_bid;
            &&& pull == Some(Side::Yes) <==> yes_swept
            &&& pull == Some(Side::No) <==> no_swept && !yes_swept
            &&& pull is None <==> !yes_swept && !no_swept
            &&& pull is Some ==> final(detector).trades@.len() == 0
            &&& pull is None ==> final(detector).trades@ == old(detector).trades@
        }),
        final(detector).prev_yes_bid == yes_bid,
        final(detector).prev_no_bid == no_bid,
        final(detector).threshold == old(detector).threshold,
        final(detector).window_nanos == old(detector).window_nanos,
{
}

/// Taking in a trade keeps those of the last window and adds it; taking in bids sets those not seen
/// yet.
pub proof fn law_recording(
    detector: &mut SweepDetector,
    now: u128,
    yes: bool,
    count: i64,
    other: &mut SweepDetector,
    yes_bid: i64,
    no_bid: i64,
    out: (),
)
    requires
        call_ensures(SweepDetector::record_trade_at, (detector, now, yes, count), out),
        call_ensures(SweepDetector::record_bbo, (other, yes_bid, no_bid), out),
    ensures
        final(detector).trades@ == sweep::within_window(
            old(detector).trades@,
            now,
            old(detector).window_nanos,
        ).push((now, yes, count)),
        final(detector).prev_yes_bid == old(detector).prev_yes_bid,
        final(detector).prev_no_bid == old(detector).prev_no_bid,
        final(detector).threshold == old(detector).threshold,
        final(detector).window_nanos == old(detector).window_nanos,
        final(other).prev_yes_bid == if old(other).prev_yes_bid == 0 {
            yes_bid
        } else {
            old(other).prev_yes_bid
        },
        final(other).prev_no_bid == if old(other).prev_no_bid == 0 {
            no_bid
        } else {
            old(other).prev_no_bid
        },
        final(other).trades@ == old(other).trades@,
{
    sweep_laws::law_trade_joins_the_record(*old(detector), *final(detector), now, yes, count);
}

/// One contract filled: it pairs with the oldest one waiting on the other side or waits itself, and a
/// pair earns 100 less what its two contracts cost. A NO contract costs 100 less the YES price.
pub proof fn law_record_one_contract(
    pairs: &mut PairTracker,
    side: Side,
    yes_price: i64,
    post_position: i64,
    out: (),
)
    requires
        old(pairs).fill_fits(side, yes_price, 1),
        call_ensures(PairTracker::record_fill, (pairs, side, yes_price, 1, post_position), out),
    ensures
        final(pairs).inventory == post_position,
        side == Side::Yes && old(pairs).no_legs@.len() > 0 ==> final(pairs).realized_pnl
            == old(pairs).realized_pnl + 100 - yes_price - old(pairs).no_legs@[0]
            && final(pairs).no_legs@ == old(pairs).no_legs@.drop_first() && final(pairs).yes_legs@
            == old(pairs).yes_legs@,
        side == Side::Yes && old(pairs).no_legs@.len() == 0 ==> final(pairs).realized_pnl
            == old(pairs).realized_pnl && final(pairs).yes_legs@ == old(pairs).yes_legs@.push(
            yes_price,
        ),
        side == Side::No && old(pairs).yes_legs@.len() > 0 ==> final(pairs).realized_pnl
            == old(pairs).realized_pnl + yes_price - old(pairs).yes_legs@[0]
            && final(pairs).yes_legs@ == old(pairs).yes_legs@.drop_first() && final(pairs).no_legs@
            == old(pairs).no_legs@,
        side == Side::No && old(pairs).yes_legs@.len() == 0 ==> final(pairs).realized_pnl
            == old(pairs).realized_pnl && final(pairs).no_legs@.drop_last() == old(pairs).no_legs@
            && final(pairs).no_legs@.len() == old(pairs).no_legs@.len() + 1
            && final(pairs).no_legs@.last() + yes_price == 100,
{
    match side {
        Side::Yes => pairs_laws::law_one_yes_contract(
            *old(pairs),
            *final(pairs),
            yes_price,
            post_position,
        ),
        Side::No => pairs_laws::law_one_no_contract(
            *old(pairs),
            *final(pairs),
            yes_price,
            post_position,
        ),
    }
}

/// A fill of several contracts does what as many fills of one do: filling `first` and then `second`
/// leaves what filling their sum leaves. A fill of none sets the position alone.
pub proof fn law_record_fill_in_parts(
    a: &mut PairTracker,
    b: &mut PairTracker,
    whole: &mut PairTracker,
    side: Side,
    yes_price: i64,
    first: i64,
    second: i64,
    middle_position: i64,
    post_position: i64,
    out: (),
)
    requires
        first + second <= i64::MAX,
        *old(b) == *final(a),
        *old(whole) == *old(a),
        call_ensures(PairTracker::record_fill, (a, side, yes_price, first, middle_position), out),
        call_ensures(PairTracker::record_fill, (b, side, yes_price, second, post_position), out),
        call_ensures(
            PairTracker::record_fill,
            (whole, side, yes_price, (first + second) as i64, post_position),
            out,
        ),
    ensures
        0 <= first && 0 <= second ==> {
            &&& final(b).realized_pnl == final(whole).realized_pnl
            &&& final(b).pairs_completed == final(whole).pairs_completed
            &&& final(b).yes_legs@ == final(whole).yes_legs@
            &&& final(b).no_legs@ == final(whole).no_legs@
            &&& final(b).inventory == final(whole).inventory
        },
        first <= 0 ==> {
            &&& final(a).inventory == middle_position
            &&& final(a).realized_pnl == old(a).realized_pnl
            &&& final(a).pairs_completed == old(a).pairs_completed
            &&& final(a).yes_legs@ == old(a).yes_legs@
            &&& final(a).no_legs@ == old(a).no_legs@
        },
{
    if 0 <= first && 0 <= second {
        pairs_laws::law_split_fill(
            *old(a),
            *final(a),
            *final(b),
            *final(whole),
            side,
            yes_price,
            first,
            second,
            middle_position,
            post_position,
        );
    }
    if first <= 0 {
        pairs_laws::law_empty_fill(
            *old(a),
            *final(a),
            side,
            yes_price,
            first,
            middle_position,
        );
    }
}

/// A contract waits exactly when there is a leg, and a reported position drifts exactly when it is not
/// the counted one.
pub proof fn law_pairs_are_told(
    pairs: PairTracker,
    unpaired: bool,
    side: Side,
    count: i64,
    post_position: i64,
    drift: Option<i64>,
)
    requires
        call_ensures(PairTracker::has_unpaired, (&pairs,), unpaired),
        call_ensures(PairTracker::drift, (&pairs, side, count, post_position), drift),
    ensures
        !unpaired <==> pairs.yes_legs@.len() + pairs.no_legs@.len() == 0,
        ({
            let counted = if side == Side::Yes {
                pairs.inventory + count
            } else {
                pairs.inventory - count
            };
            &&& counted == post_position ==> drift is None
            &&& counted != post_position ==> drift is Some && drift->0 == counted
        }),
{
}

/// What is pending on a side is what remains of its orders: an order taken in under a new id adds what
/// remains of it to its own side, and nothing to the other.
pub proof fn law_pending_follows_orders(
    before: Tracker,
    orders: &mut Tracker,
    order: Order,
    side: Side,
    was: i64,
    is: i64,
    out: (),
)
    requires
        *old(orders) == before,
        before.wf(),
        forall|i: int|
            0 <= i < before.orders@.len() ==> (#[trigger] before.orders@[i]).order_id@
                != order.order_id@,
        call_ensures(Tracker::pending_on_side, (&before, side), was),
        call_ensures(Tracker::insert, (orders, order), out),
        call_ensures(Tracker::pending_on_side, (&*final(orders), side), is),
    ensures
        is - was == if order.side == side {
            order.remaining as int
        } else {
            0
        },
        before.orders@.len() == 0 ==> was == 0,
        final(orders).orders@ == before.orders@.push(order),
{
    tracker::lemma_place_of(before.orders@, order.order_id@);
    tracker_laws::law_new_order_is_pending(before.orders@, order, side);
}

/// Removing by id drops the orders with those ids and no others; dropping the stale ones drops those
/// older than ten seconds and no others, and names them.
pub proof fn law_orders_leave(
    a: &mut Tracker,
    id: &str,
    b: &mut Tracker,
    ids: &Vec<String>,
    c: &mut Tracker,
    now: u128,
    named: Vec<String>,
    d: &mut Tracker,
    out: (),
    order: Order,
)
    requires
        old(a).wf() && old(b).wf() && old(c).wf(),
        old(a).orders@.contains(order),
        old(b).orders@.contains(order),
        old(c).orders@.contains(order),
        call_ensures(Tracker::remove, (a, id), out),
        call_ensures(Tracker::remove_each, (b, ids), out),
        call_ensures(Tracker::drop_stale, (c, now), named),
        call_ensures(Tracker::remove_all, (d,), out),
    ensures
        final(a).orders@.contains(order) <==> order.order_id@ != id@,
        final(b).orders@.contains(order) <==> !tracker_laws::has_id(ids@, order.order_id@),
        final(c).orders@.contains(order) <==> now <= order.placed_at + 10_000_000_000,
        tracker_laws::has_id(named@, order.order_id@) <==> now > order.placed_at + 10_000_000_000,
        final(d).orders@.len() == 0,
{
    let other = |o: Order| o.order_id@ != id@;
    tracker_laws::law_remove_drops_that_order_alone(old(a).orders@, id@);
    tracker_laws::lemma_filter_contains(old(a).orders@, other, order);
    let unnamed = |o: Order| !tracker_laws::has_id(ids@, o.order_id@);
    tracker_laws::law_remove_each_drops_those_orders_alone(old(b).orders@, ids@);
    tracker_laws::lemma_filter_contains(old(b).orders@, unnamed, order);
    let orders = old(c).orders@;
    tracker_laws::law_only_old_orders_are_dropped(orders, now, order);
    let stale = tracker::stale(orders, now);
    if stale.contains(order) {
        let k = choose|k: int| 0 <= k < stale.len() && stale[k] == order;
        assert(named@[k]@ == order.order_id@);
    }
    if tracker_laws::has_id(named@, order.order_id@) {
        let k = choose|k: int| 0 <= k < named@.len() && (#[trigger] named@[k])@ == order.order_id@;
        tracker::lemma_filter_keeps_distinct(orders, |o: Order| tracker::is_stale(o, now));
        assert(orders.contains(stale[k]));
        let i = choose|i: int| 0 <= i < orders.len() && orders[i] == stale[k];
        let j = choose|j: int| 0 <= j < orders.len() && orders[j] == order;
        tracker::lemma_place_is_unique(orders, i);
        tracker::lemma_place_is_unique(orders, j);
        assert(stale[k] == order);
    }
}

/// A fill takes its contracts off the order with its id, which is gone once nothing remains of it.
pub proof fn law_order_is_filled(orders: &mut Tracker, i: int, id: &str, count: i64, out: ())
    requires
        old(orders).wf(),
        0 <= i < old(orders).orders@.len(),
        id@ == old(orders).orders@[i].order_id@,
        book_side::fits_i64(old(orders).orders@[i].remaining - count),
        call_ensures(Tracker::record_fill, (orders, id, count), out),
    ensures
        old(orders).orders@[i].remaining <= count ==> final(orders).orders@
            == old(orders).orders@.remove(i),
        old(orders).orders@[i].remaining > count ==> final(orders).orders@.len()
            == old(orders).orders@.len() && final(orders).orders@[i].remaining + count
            == old(orders).orders@[i].remaining && final(orders).orders@[i].price
            == old(orders).orders@[i].price && final(orders).orders@[i].side
            == old(orders).orders@[i].side,
{
    tracker_laws::law_fill_of_an_order(old(orders).orders@, i, count, i);
}

/// The ids of all orders, and those of one side, are theirs: every order is named, and on a side those
/// that bid there alone.
pub proof fn law_ids_are_told(
    orders: Tracker,
    all: Vec<String>,
    side: Side,
    some: Vec<String>,
    order: Order,
)
    requires
        orders.wf(),
        orders.orders@.contains(order),
        call_ensures(Tracker::order_ids, (&orders,), all),
        call_ensures(Tracker::ids_on_side, (&orders, side), some),
    ensures
        all@.len() == orders.orders@.len(),
        tracker_laws::has_id(all@, order.order_id@),
        tracker_laws::has_id(some@, order.order_id@) <==> order.side == side,
{
    let list = orders.orders@;
    let i = choose|i: int| 0 <= i < list.len() && list[i] == order;
    assert(all@[i]@ == order.order_id@);
    let on = tracker::on_side(list, side);
    tracker_laws::law_sides_part_the_orders(list, order, side);
    if on.contains(order) {
        let k = choose|k: int| 0 <= k < on.len() && on[k] == order;
        assert(some@[k]@ == order.order_id@);
    }
    if tracker_laws::has_id(some@, order.order_id@) {
        let k = choose|k: int| 0 <= k < some@.len() && (#[trigger] some@[k])@ == order.order_id@;
        tracker::lemma_filter_keeps_distinct(list, |o: Order| o.side == side);
        assert(list.contains(on[k]));
        let j = choose|j: int| 0 <= j < list.len() && list[j] == on[k];
        tracker::lemma_place_is_unique(list, i);
        tracker::lemma_place_is_unique(list, j);
        assert(on[k] == order);
    }
}

/// The bids wanted are exactly the grid: every price that belongs to it, once, best first.
pub proof fn law_compute_desired(
    book: OrderBook,
    pairs: PairTracker,
    orders: Tracker,
    config: Config,
    desired: DesiredOrders,
    price: i64,
    i: int,
)
    requires
        call_ensures(quoting::compute_desired, (&book, &pairs, &orders, &config), desired),
    ensures
        desired.yes_prices@.contains(price) <==> quoting_laws::belongs_to_grid(
            book,
            pairs,
            orders.orders@,
            config,
            Side::Yes,
            price as int,
        ),
        desired.no_prices@.contains(price) <==> quoting_laws::belongs_to_grid(
            book,
            pairs,
            orders.orders@,
            config,
            Side::No,
            price as int,
        ),
        0 <= i < desired.yes_prices@.len() ==> desired.yes_prices@[i] == book.yes_bids.best_bid - i,
        0 <= i < desired.no_prices@.len() ==> desired.no_prices@[i] == book.no_bids.best_bid - i,
{
    quoting_laws::law_wanted_prices_are_the_grid(
        book,
        pairs,
        orders.orders@,
        config,
        Side::Yes,
        price,
    );
    quoting_laws::law_wanted_prices_are_the_grid(
        book,
        pairs,
        orders.orders@,
        config,
        Side::No,
        price,
    );
    if 0 <= i < desired.yes_prices@.len() {
        quoting_laws::law_quotes_form_a_grid(book, pairs, orders.orders@, config, Side::Yes, i);
    }
    if 0 <= i < desired.no_prices@.len() {
        quoting_laws::law_quotes_form_a_grid(book, pairs, orders.orders@, config, Side::No, i);
    }
}

/// At every price reconciling places what is wanted beyond what rests there, and nothing where enough
/// rests.
pub proof fn law_reconcile(
    desired: DesiredOrders,
    orders: Tracker,
    actions: Vec<Action>,
    side: Side,
    price: i64,
)
    requires
        call_ensures(reconcile::reconcile, (&desired, &orders), actions),
    ensures
        ({
            let wanted = reconcile::times(
                match side {
                    Side::Yes => desired.yes_prices@,
                    Side::No => desired.no_prices@,
                },
                price,
            );
            let resting = session_laws::orders_at(orders.orders@, side, price);
            session_laws::bids_priced(crate::session::bids_in(actions@), side, price) == if wanted
                > resting {
                wanted - resting
            } else {
                0
            }
        }),
{
    session_laws::lemma_reconciled_bids(
        desired.yes_prices@,
        desired.no_prices@,
        orders.orders@,
        side,
        price,
    );
}

/// Handling a message leaves what the laws of messages speak of, and planning what the laws of plans
/// speak of.
pub proof fn law_session_steps(
    a: &mut Session,
    b: &mut Session,
    now: u128,
    config: Config,
    ticker: &str,
    msg: WsMessage,
    reaction: Reaction,
    plan: Plan,
    c: &mut Session,
    received: Option<Reaction>,
)
    requires
        call_ensures(Session::on_message, (a, now, &config, ticker, &msg), reaction),
        call_ensures(Session::plan, (b, &config), plan),
        call_ensures(Session::receive, (c, &config, ticker, &msg), received),
    ensures
        old(a).handled(*final(a), now, config, ticker@, msg, reaction),
        final(a).wf(),
        old(b).planned(*final(b), config, plan),
        final(b).wf(),
        received is Some <==> old(c).handles(ticker@, msg),
        received is None ==> *final(c) == *old(c),
        received matches Some(r) ==> exists|t: u128| #[trigger]
            old(c).handled(*final(c), t, config, ticker@, msg, r),
{
}

/// Whatever a plan is, an active session with a loss of the cap or more halts, and so does one with a
/// position beyond the limit; no other does.
pub proof fn law_plan_halts(session: &mut Session, config: Config, plan: Plan)
    requires
        old(session).ws_connected,
        old(session).book.initialized,
        call_ensures(Session::plan, (session, &config), plan),
    ensures
        plan is Halt <==> (old(session).pairs.realized_pnl + config.daily_loss_cap_cents <= 0
            || old(session).pairs.inventory > config.max_inventory || -old(session).pairs.inventory
            > config.max_inventory),
{
    session_laws::law_losses_and_positions_halt(*old(session), *final(session), config, plan);
}

/// Carrying out a plan brings about exactly the grid.
pub proof fn law_plan_brings_about_the_grid(
    session: &mut Session,
    config: Config,
    plan: Plan,
    side: Side,
    price: i64,
)
    requires
        old(session).wf(),
        session_laws::has_to_quote(*old(session), config),
        call_ensures(Session::plan, (session, &config), plan),
    ensures
        session_laws::orders_at(
            session_laws::left_after(
                old(session).tracker.orders@,
                session_laws::plan_cancels(plan),
            ),
            side,
            price,
        ) + session_laws::bids_priced(session_laws::plan_bids(plan), side, price)
            == if session_laws::bid_belongs(*old(session), config, side, price) {
            1int
        } else {
            0
        },
{
    session_laws::law_plan_leads_to_the_grid(
        *old(session),
        *final(session),
        config,
        plan,
        side,
        price,
    );
}

/// What else happens to a session changes its orders alone: canceled ones are gone, a placed one is
/// tracked, and canceling all ends with none after a success or the third failure. A new round forgets
/// what was news.
pub proof fn law_orders_of_a_session(
    a: &mut Session,
    ids: &Vec<String>,
    b: &mut Session,
    now: u128,
    config: Config,
    order_id: String,
    side: Side,
    price: i64,
    c: &mut Session,
    attempt: u32,
    ok: bool,
    step: CancelStep,
    d: &mut Session,
    out: (),
)
    requires
        call_ensures(Session::canceled, (a, ids), out),
        call_ensures(Session::placed_at, (b, now, &config, order_id, side, price), out),
        call_ensures(Session::cancel_attempted, (c, attempt, ok), step),
        call_ensures(Session::start_round, (d,), out),
        attempt < 3,
    ensures
        final(a).tracker.orders@ == tracker::without_all(old(a).tracker.orders@, ids@),
        *final(a) == (Session { tracker: final(a).tracker, ..*old(a) }),
        old(b).order_placed(*final(b), now, config, order_id, side, price),
        ok ==> step == CancelStep::Finished,
        !ok && attempt < 2 ==> step == CancelStep::Retry,
        !ok && attempt == 2 ==> step == CancelStep::GiveUp,
        step == CancelStep::Retry ==> final(c).tracker.orders@ == old(c).tracker.orders@,
        step != CancelStep::Retry ==> final(c).tracker.orders@.len() == 0,
        *final(c) == (Session { tracker: final(c).tracker, ..*old(c) }),
        *final(d) == (Session { book_changed: false, got_fill: false, ..*old(d) }),
{
}

/// A new session starts from the settings and the position, with nothing else.
pub proof fn law_new_session(config: Config, position: i64, session: Session)
    requires
        call_ensures(Session::new, (&config, position), session),
    ensures
        session.wf(),
        session.pairs.inventory == position,
        session.pairs.realized_pnl == 0,
        session.tracker.orders@.len() == 0,
        session.sweep.window_nanos == 1_000_000 * config.sweep_window_ms,
        session.sweep.threshold == config.sweep_volume_threshold,
        session.sweep.trades@.len() == 0,
        !session.ws_connected,
        !session.book.initialized,
        session.last_desired.yes_prices@.len() == 0 && session.last_desired.no_prices@.len() == 0,
        !session.book_changed && !session.got_fill,
{
    book_laws::law_fresh_book_is_empty(session.book, 0);
}

/// A price reads as its cents, and a number of contracts as that number.
pub proof fn law_requests(
    cents: i64,
    text: String,
    ticker: &str,
    side: Side,
    count: i64,
    id: String,
    req: PlaceReq,
)
    requires
        call_ensures(rest::price_dollars, (cents,), text),
        call_ensures(rest::place_request_with_id, (ticker, side, cents, count, id), req),
    ensures
        text@ == rest::dollars(cents as int),
        req.ticker@ == ticker@,
        req.client_order_id@ == id@,
        req.action@ == "buy"@,
        req.post_only && req.cancel_order_on_pause,
        side == Side::Yes ==> req.side@ == "yes"@ && req.no_price_dollars is None
            && req.yes_price_dollars is Some && req.yes_price_dollars->0@ == text@,
        side == Side::No ==> req.side@ == "no"@ && req.yes_price_dollars is None
            && req.no_price_dollars is Some && req.no_price_dollars->0@ == text@,
        req.count_fp@.len() > 3 && numbers::signed_value(
            req.count_fp@.take(req.count_fp@.len() - 3),
        ) == Some(count as int),
{
    rest::law_request_bids_its_own_side(req, ticker@, side, cents, count, id@);
}

/// All orders asked for are canceled with one request, and none is made for none. The position of a
/// market is the first one listed for it.
pub proof fn law_cancels_and_positions(
    ids: Vec<String>,
    req: Option<BatchCancelReq>,
    positions: Vec<Pos>,
    ticker: &str,
    position: i64,
    i: int,
)
    requires
        call_ensures(rest::cancel_request, (&ids,), req),
        call_ensures(rest::position_for, (&positions, ticker), position),
    ensures
        ids@.len() == 0 ==> req is None,
        ids@.len() > 0 ==> req is Some && req->0.orders@ == ids@,
        0 <= i < positions@.len() && positions@[i].ticker@ == ticker@ && (forall|j: int|
            0 <= j < i ==> (#[trigger] positions@[j]).ticker@ != ticker@) ==> position
            == positions@[i].position,
        (forall|j: int| 0 <= j < positions@.len() ==> (#[trigger] positions@[j]).ticker@ != ticker@)
            ==> position == 0,
{
    rest::law_first_position_counts(positions@, ticker@, i);
}

/// A market is left exactly when no more than `before_close` whole seconds are left, none counting as
/// zero; without a readable closing time never.
pub proof fn law_rotation(
    seconds_left: i64,
    before_close: i64,
    due: bool,
    close: UtcTime,
    now: UtcTime,
    leave: bool,
    stay: bool,
    text: String,
    read: Option<UtcTime>,
)
    requires
        call_ensures(rotation::rotation_due, (seconds_left, before_close), due),
        call_ensures(rotation::should_rotate_at, (&Some(close), now, before_close), leave),
        call_ensures(rotation::should_rotate_at, (&None, now, before_close), stay),
        call_ensures(rotation::closing_time, (&Some(text),), read),
    ensures
        due <==> before_close >= 0 && seconds_left <= before_close,
        close.nanos < 1_000_000_000 && now.nanos < 1_000_000_000 ==> (leave <==> before_close >= 0
            && close.secs * 1_000_000_000 + close.nanos < now.secs * 1_000_000_000 + now.nanos + (
        before_close + 1) * 1_000_000_000),
        !stay,
        read is None <==> rotation::rfc3339_time(text@) is None,
        read matches Some(t) ==> rotation::rfc3339_time(text@) == Some((t.secs, t.nanos)),
{
    if close.nanos < 1_000_000_000 && now.nanos < 1_000_000_000 {
        rotation::law_market_is_left_in_time(close, now, before_close);
    }
}

/// Permits come back at the rate.
pub proof fn law_rate(rate: u32, micros: u64, available: usize, due: bool)
    requires
        rate > 0,
        call_ensures(rate::refill_interval_micros, (rate,), micros),
        call_ensures(rate::refill_due, (available, rate), due),
    ensures
        rate * micros <= 1_000_000,
        rate * (micros + 1) > 1_000_000,
        due <==> available < rate,
{
    rate::law_permits_come_back_at_the_rate(rate as nat);
}

/// A number read is the one that its text stands for, and every number of the type is read from its
/// decimal form.
pub proof fn law_numbers_are_read(text: &str, n: int, a: Option<i64>, b: Option<u64>, c: Option<u32>)
    requires
        call_ensures(numbers::read_i64, (text,), a),
        call_ensures(numbers::read_u64, (text,), b),
        call_ensures(numbers::read_u32, (text,), c),
    ensures
        a is Some ==> numbers::signed_value(text@) == Some(a->0 as int),
        b is Some ==> numbers::unsigned_value(text@) == Some(b->0 as int),
        c is Some ==> numbers::unsigned_value(text@) == Some(c->0 as int),
        numbers::signed_value(text@) == Some(n) && i64::MIN <= n <= i64::MAX ==> a is Some
            && a->0 == n,
        numbers::unsigned_value(text@) == Some(n) && 0 <= n <= u64::MAX ==> b is Some && b->0 == n,
        numbers::unsigned_value(text@) == Some(n) && 0 <= n <= u32::MAX ==> c is Some && c->0 == n,
{
}

/// The settings are those of the environment, where it sets them, each from its own variable.
pub proof fn law_settings_from_the_environment(vars: EnvVars, config: Config)
    requires
        call_ensures(Config::from_env, (&vars,), config),
    ensures
        vars.series_ticker matches Some(v) ==> config.series_ticker@ == v@,
        config.order_size == config::signed_setting(vars.order_size, 1),
        config.grid_levels == config::signed_setting(vars.grid_levels, 2),
        config.max_inventory == config::signed_setting(vars.max_inventory, 3),
        config.sweep_volume_threshold == config::signed_setting(vars.sweep_volume, 100),
        config.sweep_window_ms == config::unsigned_setting(
            vars.sweep_window_ms,
            100,
            u64::MAX as int,
        ),
        config.rate_limit_writes_per_sec == config::unsigned_setting(
            vars.rate_limit_wps,
            28,
            u32::MAX as int,
        ),
        config.daily_loss_cap_cents == config::signed_setting(vars.daily_loss_cap, 500),
        config.market_rotate_before_close_secs == 180,
{
}

/// What two files joined by a line feed set is what the first sets and then what the second sets, and
/// a file of one line sets what that line sets.
pub proof fn law_files_are_read_line_by_line(
    first: &str,
    second: &str,
    both: &str,
    a: Vec<(String, String)>,
    b: Vec<(String, String)>,
    all: Vec<(String, String)>,
)
    requires
        both@ == first@ + seq!['\n'] + second@,
        call_ensures(dotenv::parse_env, (first,), a),
        call_ensures(dotenv::parse_env, (second,), b),
        call_ensures(dotenv::parse_env, (both,), all),
    ensures
        dotenv::texts(all@) == dotenv::texts(a@) + dotenv::texts(b@),
        (forall|i: int| 0 <= i < first@.len() ==> #[trigger] first@[i] != '\n') ==> dotenv::texts(
            a@,
        ) == match dotenv::line_entry(first@) {
            Some(entry) => seq![entry],
            None => seq![],
        },
{
    dotenv_laws::law_line_feeds_part_lines(first@, second@);
    dotenv_laws::law_lines_set_one_by_one(
        dotenv::lines(first@),
        dotenv::lines(second@),
        first@,
    );
}

/// What takes effect of a settings file has names that are not set yet, and of several lines with one
/// name the first.
pub proof fn law_settings_to_add(
    list: Vec<(String, String)>,
    already_set: Vec<String>,
    add: Vec<(String, String)>,
    i: int,
    first: int,
)
    requires
        call_ensures(dotenv::settings_to_add, (&list, &already_set), add),
    ensures
        0 <= i < add@.len() ==> !dotenv::is_set(already_set@, add@[i].0@),
        0 <= first < list@.len() && !dotenv::is_set(already_set@, list@[first].0@) && (forall|j: int|
            0 <= j < first ==> (#[trigger] list@[j]).0@ != list@[first].0@) ==> exists|k: int|
            0 <= k < add@.len() && (#[trigger] add@[k]).0@ == list@[first].0@ && add@[k].1@
                == list@[first].1@,
{
    let texts = dotenv::texts(list@);
    let effective = dotenv::effective(texts, already_set@);
    if 0 <= i < add@.len() {
        dotenv::law_set_names_stay(texts, already_set@, i);
        assert(effective[i] == (add@[i].0@, add@[i].1@));
    }
    if 0 <= first < list@.len() && !dotenv::is_set(already_set@, list@[first].0@) && (forall|j: int|
        0 <= j < first ==> (#[trigger] list@[j]).0@ != list@[first].0@) {
        let before = texts.take(first);
        if dotenv::has_key(before, texts[first].0) {
            let j = choose|j: int| 0 <= j < before.len() && (#[trigger] before[j]).0 == texts[first].0;
            assert(list@[j].0@ != list@[first].0@);
        }
        dotenv::law_first_line_wins(texts, already_set@, first);
        let k = choose|k: int| 0 <= k < effective.len() && effective[k] == texts[first];
        assert(dotenv::texts(add@)[k] == (add@[k].0@, add@[k].1@));
    }
}

/// Ordinary books, orders and positions are never turned down: with prices within 1000 cents, up to a
/// million levels and orders, and numbers within a billion, every question whether they can be taken
/// is answered with yes.
pub proof fn law_ordinary_inputs_are_taken(
    session: Session,
    config: Config,
    levels: &[(i64, i64)],
    price: i64,
    delta: i64,
    range: i64,
    side: Side,
    count: i64,
    id: &str,
    snapshot: bool,
    change: bool,
    depth: bool,
    pending: bool,
    order_fill: bool,
    fill: bool,
    desired: bool,
    plan: bool,
)
    requires
        session.book.wf(),
        levels@.len() <= 1_000_000,
        forall|i: int|
            0 <= i < levels@.len() ==> -1_000_000_000 <= (#[trigger] levels@[i]).1 <= 1_000_000_000,
        -1000 <= price <= 1000,
        -1_000_000_000 <= delta <= 1_000_000_000,
        -1_000_000_000 <= range <= 1_000_000_000,
        -1_000_000_000 <= count <= 1_000_000_000,
        -1_000_000_000_000_000 <= session.book.yes_bids.total_qty <= 1_000_000_000_000_000,
        forall|p: int|
            0 <= p < 100 ==> -1_000_000_000 <= #[trigger] session.book.yes_bids.quantities@[p]
                <= 1_000_000_000,
        forall|p: int|
            0 <= p < 100 ==> -1_000_000_000 <= #[trigger] session.book.no_bids.quantities@[p]
                <= 1_000_000_000,
        -1_000_000_000 <= session.pairs.inventory <= 1_000_000_000,
        -1_000_000_000 <= session.pairs.realized_pnl <= 1_000_000_000,
        session.pairs.pairs_completed <= 1_000_000_000,
        forall|i: int|
            0 <= i < session.pairs.yes_legs@.len() ==> -1000
                <= #[trigger] session.pairs.yes_legs@[i] <= 1000,
        forall|i: int|
            0 <= i < session.pairs.no_legs@.len() ==> -1000 <= #[trigger] session.pairs.no_legs@[i]
                <= 1000,
        session.tracker.orders@.len() <= 1_000_000,
        forall|i: int|
            0 <= i < session.tracker.orders@.len() ==> -1_000_000_000 <= (
            #[trigger] session.tracker.orders@[i]).remaining <= 1_000_000_000,
        -1_000_000_000 <= config.max_inventory <= 1_000_000_000,
        -1_000_000_000 <= config.order_size <= 1_000_000_000,
        -1_000_000_000 <= config.daily_loss_cap_cents,
        call_ensures(BookSide::can_apply_snapshot, (levels,), snapshot),
        call_ensures(BookSide::can_apply_delta, (&session.book.yes_bids, price, delta), change),
        call_ensures(OrderBook::can_sum_depth, (&session.book, range), depth),
        call_ensures(Tracker::can_sum_pending, (&session.tracker, side), pending),
        call_ensures(Tracker::can_record_fill, (&session.tracker, id, count), order_fill),
        call_ensures(PairTracker::can_record_fill, (&session.pairs, side, price, count), fill),
        call_ensures(
            quoting::can_compute_desired,
            (&session.book, &session.pairs, &session.tracker, &config),
            desired,
        ),
        call_ensures(Session::can_plan, (&session, &config), plan),
    ensures
        snapshot && change && depth && pending && order_fill && fill && desired && plan,
{
    let orders = session.tracker.orders@;
    book_laws::law_ordinary_snapshots_fit(levels@);
    book_laws::law_ordinary_deltas_fit(session.book.yes_bids, price, delta);
    book_laws::law_ordinary_depth_fits(session.book, range as int);
    tracker_laws::law_ordinary_orders_add_up(orders, side);
    tracker_laws::law_ordinary_order_fills_fit(orders, id@, count);
    pairs_laws::law_ordinary_fills_fit(session.pairs, side, price, count);
    quoting_laws::law_ordinary_positions_fit(session.book, session.pairs, orders, config);
    session_laws::law_ordinary_plans_fit(session, config);
}

} // verus!
