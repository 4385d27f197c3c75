//! Laws of the order tracker.

use crate::book_side;
use crate::order_book::Side;
use crate::pairs;
use crate::tracker;
use crate::tracker::Order;
use vstd::prelude::*;

verus! {

/// Whether `id` is among `ids`.
pub open spec fn has_id(ids: Seq<String>, id: Seq<char>) -> bool {
    exists|i: int| 0 <= i < ids.len() && (#[trigger] ids[i])@ == id
}

/// Two conditions that agree on every order keep the same orders.
pub proof fn lemma_filter_agrees(
    orders: Seq<Order>,
    p: spec_fn(Order) -> bool,
    q: spec_fn(Order) -> bool,
)
    requires
        forall|i: int| 0 <= i < orders.len() ==> p(#[trigger] orders[i]) == q(orders[i]),
    ensures
        orders.filter(p) == orders.filter(q),
    decreases orders.len(),
{
    reveal(Seq::filter);
    if orders.len() > 0 {
        let rest = orders.drop_last();
        assert forall|i: int| 0 <= i < rest.len() implies p(#[trigger] rest[i]) == q(rest[i]) by {
            assert(rest[i] == orders[i]);
        }
        lemma_filter_agrees(rest, p, q);
        assert(p(orders[orders.len() - 1]) == q(orders[orders.len() - 1]));
    }
}

/// A condition that every order meets keeps all.
pub proof fn lemma_filter_all(orders: Seq<Order>, p: spec_fn(Order) -> bool)
    requires
        forall|i: int| 0 <= i < orders.len() ==> p(#[trigger] orders[i]),
    ensures
        orders.filter(p) == orders,
    decreases orders.len(),
{
    reveal(Seq::filter);
    if orders.len() > 0 {
        let rest = orders.drop_last();
        assert forall|i: int| 0 <= i < rest.len() implies p(#[trigger] rest[i]) by {
            assert(rest[i] == orders[i]);
        }
        lemma_filter_all(rest, p);
        assert(p(orders[orders.len() - 1]));
        assert(rest.push(orders.last()) =~= orders);
    }
}

/// Keeping by one condition and then by another is keeping by both.
pub proof fn lemma_filter_twice(
    orders: Seq<Order>,
    p: spec_fn(Order) -> bool,
    q: spec_fn(Order) -> bool,
)
    ensures
        orders.filter(p).filter(q) == orders.filter(|o: Order| p(o) && q(o)),
    decreases orders.len(),
{
    reveal(Seq::filter);
    if orders.len() > 0 {
        let rest = orders.drop_last();
        lemma_filter_twice(rest, p, q);
        if p(orders.last()) {
            assert(rest.filter(p).push(orders.last()).drop_last() =~= rest.filter(p));
        }
    }
}

/// Removing an order by its id drops that order, and no other.
pub proof fn law_remove_drops_that_order_alone(orders: Seq<Order>, id: Seq<char>)
    requires
        tracker::distinct_ids(orders),
    ensures
        tracker::without(orders, id) == orders.filter(|o: Order| o.order_id@ != id),
    decreases orders.len(),
{
    let other = |o: Order| o.order_id@ != id;
    reveal(Seq::filter);
    tracker::lemma_place_of(orders, id);
    if orders.len() > 0 {
        let rest = orders.drop_last();
        assert(tracker::distinct_ids(rest));
        if orders.last().order_id@ == id {
            assert forall|i: int| 0 <= i < rest.len() implies other(#[trigger] rest[i]) by {
                assert(orders[i].order_id@ != orders[orders.len() - 1].order_id@);
            }
            lemma_filter_all(rest, other);
            assert(orders.remove(orders.len() - 1) =~= rest);
        } else {
            law_remove_drops_that_order_alone(rest, id);
            let i = tracker::place_of(rest, id);
            tracker::lemma_place_of(rest, id);
            if i >= 0 {
                assert(orders.remove(i) =~= rest.remove(i).push(orders.last()));
            } else {
                assert(rest.push(orders.last()) =~= orders);
            }
        }
    } else {
        assert(orders.filter(other) =~= orders);
    }
}

/// Removing several orders by their ids drops those orders, and no others.
pub proof fn law_remove_each_drops_those_orders_alone(orders: Seq<Order>, ids: Seq<String>)
    requires
        tracker::distinct_ids(orders),
    ensures
        tracker::without_all(orders, ids) == orders.filter(
            |o: Order| !has_id(ids, o.order_id@),
        ),
    decreases ids.len(),
{
    let p = |o: Order| !has_id(ids, o.order_id@);
    if ids.len() == 0 {
        lemma_filter_all(orders, p);
    } else {
        let rest = ids.drop_last();
        let id = ids.last()@;
        let q = |o: Order| !has_id(rest, o.order_id@);
        let r = |o: Order| o.order_id@ != id;
        law_remove_each_drops_those_orders_alone(orders, rest);
        tracker::lemma_filter_keeps_distinct(orders, q);
        law_remove_drops_that_order_alone(orders.filter(q), id);
        lemma_filter_twice(orders, q, r);
        let both = |o: Order| q(o) && r(o);
        assert forall|i: int| 0 <= i < orders.len() implies both(#[trigger] orders[i]) == p(
            orders[i],
        ) by {
            let x = orders[i].order_id@;
            if has_id(ids, x) {
                let k = choose|k: int| 0 <= k < ids.len() && (#[trigger] ids[k])@ == x;
                if k < rest.len() {
                    assert(rest[k]@ == x);
                }
            }
            if has_id(rest, x) {
                let k = choose|k: int| 0 <= k < rest.len() && (#[trigger] rest[k])@ == x;
                assert(ids[k]@ == x);
            }
            if id == x {
                assert(ids[ids.len() - 1]@ == x);
            }
        }
        lemma_filter_agrees(orders, both, p);
    }
}

/// Removing the orders that meet a condition leaves those that do not.
pub proof fn law_remove_some_leaves_the_others(orders: Seq<Order>, p: spec_fn(Order) -> bool)
    requires
        tracker::distinct_ids(orders),
    ensures
        tracker::without_all(orders, tracker::ids_of(orders.filter(p))) == orders.filter(
            |o: Order| !p(o),
        ),
{
    let some = orders.filter(p);
    let ids = tracker::ids_of(some);
    law_remove_each_drops_those_orders_alone(orders, ids);
    tracker::lemma_filter_keeps_distinct(orders, p);
    let left = |o: Order| !has_id(ids, o.order_id@);
    let not = |o: Order| !p(o);
    assert forall|i: int| 0 <= i < orders.len() implies left(#[trigger] orders[i]) == not(
        orders[i],
    ) by {
        broadcast use vstd::seq_lib::group_filter_ensures;

        let o = orders[i];
        if p(o) {
            assert(some.contains(o));
            let k = choose|k: int| 0 <= k < some.len() && some[k] == o;
            assert(ids[k]@ == o.order_id@);
        }
        if has_id(ids, o.order_id@) {
            let k = choose|k: int| 0 <= k < ids.len() && (#[trigger] ids[k])@ == o.order_id@;
            assert(orders.contains(some[k]));
            let j = choose|j: int| 0 <= j < orders.len() && orders[j] == some[k];
            tracker::lemma_place_is_unique(orders, j);
            tracker::lemma_place_is_unique(orders, i);
            assert(j == i);
            assert(p(some[k]));
        }
    }
    lemma_filter_agrees(orders, left, not);
}

/// Pulling one side, by the ids of its orders, leaves the orders of the other side, all of them.
pub proof fn law_pulling_a_side_leaves_the_other(orders: Seq<Order>, side: Side)
    requires
        tracker::distinct_ids(orders),
    ensures
        ({
            let after = tracker::without_all(
                orders,
                tracker::ids_of(tracker::on_side(orders, side)),
            );
            &&& after == tracker::on_side(orders, pairs::opposite(side))
            &&& tracker::pending(after, side) == 0
            &&& tracker::pending(after, pairs::opposite(side)) == tracker::pending(
                orders,
                pairs::opposite(side),
            )
        }),
{
    let p = |o: Order| o.side == side;
    let not = |o: Order| !p(o);
    let other = |o: Order| o.side == pairs::opposite(side);
    law_remove_some_leaves_the_others(orders, p);
    assert forall|i: int| 0 <= i < orders.len() implies not(#[trigger] orders[i]) == other(
        orders[i],
    ) by {}
    lemma_filter_agrees(orders, not, other);
    lemma_side_pending(orders, pairs::opposite(side));
}

/// The orders of one side hold all that is pending there, and nothing of the other side.
proof fn lemma_side_pending(orders: Seq<Order>, side: Side)
    ensures
        tracker::pending(tracker::on_side(orders, side), side) == tracker::pending(orders, side),
        tracker::pending(tracker::on_side(orders, side), pairs::opposite(side)) == 0,
    decreases orders.len(),
{
    reveal(Seq::filter);
    if orders.len() > 0 {
        let rest = orders.drop_last();
        lemma_side_pending(rest, side);
        if orders.last().side == side {
            assert(tracker::on_side(rest, side).push(orders.last()).drop_last()
                =~= tracker::on_side(rest, side));
        }
    }
}

/// Dropping stale orders is removing them by their ids: the fresh ones are what is left, and no order
/// is both.
pub proof fn law_dropping_stale_leaves_the_fresh(orders: Seq<Order>, now: u128)
    requires
        tracker::distinct_ids(orders),
    ensures
        tracker::without_all(orders, tracker::ids_of(tracker::stale(orders, now)))
            == tracker::fresh(orders, now),
        forall|i: int|
            0 <= i < tracker::fresh(orders, now).len() ==> now - (#[trigger] tracker::fresh(
                orders,
                now,
            )[i]).placed_at <= tracker::STALE_AFTER_NANOS,
{
    let p = |o: Order| tracker::is_stale(o, now);
    let not = |o: Order| !p(o);
    let fresh = |o: Order| !tracker::is_stale(o, now);
    law_remove_some_leaves_the_others(orders, p);
    lemma_filter_agrees(orders, not, fresh);
    broadcast use vstd::seq_lib::group_filter_ensures;

    assert forall|i: int| 0 <= i < tracker::fresh(orders, now).len() implies now - (
    #[trigger] tracker::fresh(orders, now)[i]).placed_at <= tracker::STALE_AFTER_NANOS by {
        assert(fresh(tracker::fresh(orders, now)[i]));
    }
}

/// An order taken in is found under its id, and the orders under other ids are as they were.
pub proof fn law_inserted_order_is_found(orders: Seq<Order>, order: Order, other: Seq<char>)
    requires
        tracker::distinct_ids(orders),
        other != order.order_id@,
    ensures
        ({
            let after = tracker::with(orders, order);
            let i = tracker::place_of(after, order.order_id@);
            let was = tracker::place_of(orders, other);
            let is = tracker::place_of(after, other);
            &&& i >= 0 && after[i] == order
            &&& is == was
            &&& was >= 0 ==> after[is] == orders[was]
        }),
{
    let after = tracker::with(orders, order);
    tracker::lemma_place_of(orders, order.order_id@);
    let at = tracker::place_of(orders, order.order_id@);
    assert(tracker::distinct_ids(after)) by {
        if at >= 0 {
            assert forall|i: int, j: int| 0 <= i < j < after.len() implies (
            #[trigger] after[i]).order_id@ != (#[trigger] after[j]).order_id@ by {
                assert(orders[i].order_id@ != orders[j].order_id@);
            }
        }
    }
    let i = if at >= 0 {
        at
    } else {
        orders.len() as int
    };
    assert(after[i] == order);
    tracker::lemma_place_is_unique(after, i);
    tracker::lemma_place_of(orders, other);
    tracker::lemma_place_of(after, other);
    let was = tracker::place_of(orders, other);
    let is = tracker::place_of(after, other);
    if was >= 0 {
        assert(after[was] == orders[was]);
        tracker::lemma_place_is_unique(after, was);
    } else if is >= 0 {
        assert(after[is].order_id@ == other);
        assert(is != i);
        assert(orders[is].order_id@ == other);
    }
}

/// Taking in an order under a new id and removing it again leaves the orders as they were.
pub proof fn law_remove_undoes_insert(orders: Seq<Order>, order: Order)
    requires
        tracker::distinct_ids(orders),
        tracker::place_of(orders, order.order_id@) < 0,
    ensures
        tracker::without(tracker::with(orders, order), order.order_id@) == orders,
{
    let after = orders.push(order);
    assert(after.remove(after.len() - 1) =~= orders);
}

/// What one order more or less means for the pending contracts.
proof fn lemma_pending_remove(orders: Seq<Order>, i: int, side: Side)
    requires
        0 <= i < orders.len(),
    ensures
        tracker::pending(orders.remove(i), side) == tracker::pending(orders, side) - if orders[i].side
            == side {
            orders[i].remaining as int
        } else {
            0
        },
    decreases orders.len(),
{
    let rest = orders.drop_last();
    if i == orders.len() - 1 {
        assert(orders.remove(i) =~= rest);
    } else {
        lemma_pending_remove(rest, i, side);
        assert(orders.remove(i).drop_last() =~= rest.remove(i));
    }
}

/// What a changed order means for the pending contracts.
proof fn lemma_pending_update(orders: Seq<Order>, i: int, order: Order, side: Side)
    requires
        0 <= i < orders.len(),
        order.side == orders[i].side,
    ensures
        tracker::pending(orders.update(i, order), side) == tracker::pending(orders, side)
            + if order.side == side {
            order.remaining - orders[i].remaining
        } else {
            0
        },
    decreases orders.len(),
{
    let rest = orders.drop_last();
    let after = orders.update(i, order);
    if i == orders.len() - 1 {
        assert(after.drop_last() =~= rest);
    } else {
        lemma_pending_update(rest, i, order, side);
        assert(after.drop_last() =~= rest.update(i, order));
    }
}

/// A new order adds its contracts to what is pending on its side, and nothing to the other side.
pub proof fn law_new_order_is_pending(orders: Seq<Order>, order: Order, side: Side)
    requires
        tracker::place_of(orders, order.order_id@) < 0,
    ensures
        tracker::pending(tracker::with(orders, order), side) == tracker::pending(orders, side)
            + if order.side == side {
            order.remaining as int
        } else {
            0
        },
{
    assert(orders.push(order).drop_last() =~= orders);
}

/// A fill of a known order takes the filled contracts off what is pending on its side, but never more
/// than remained of the order; the other side and fills of unknown orders change nothing.
pub proof fn law_fill_reduces_pending(orders: Seq<Order>, id: Seq<char>, count: i64, side: Side)
    requires
        tracker::fill_fits(orders, id, count),
    ensures
        ({
            let i = tracker::place_of(orders, id);
            let after = tracker::after_fill(orders, id, count);
            tracker::pending(after, side) == tracker::pending(orders, side) - if i >= 0
                && orders[i].side == side {
                if count < orders[i].remaining {
                    count
                } else {
                    orders[i].remaining
                }
            } else {
                0
            }
        }),
{
    tracker::lemma_place_of(orders, id);
    let i = tracker::place_of(orders, id);
    if i >= 0 {
        if orders[i].remaining - count <= 0 {
            lemma_pending_remove(orders, i, side);
        } else {
            lemma_pending_update(
                orders,
                i,
                Order { remaining: (orders[i].remaining - count) as i64, ..orders[i] },
                side,
            );
        }
    }
}

/// What is pending on a side, with a bound for each order.
pub proof fn lemma_pending_bound(orders: Seq<Order>, side: Side)
    requires
        forall|i: int|
            0 <= i < orders.len() ==> -1_000_000_000 <= (#[trigger] orders[i]).remaining
                <= 1_000_000_000,
    ensures
        -1_000_000_000 * orders.len() <= tracker::pending(orders, side) <= 1_000_000_000
            * orders.len(),
    decreases orders.len(),
{
    if orders.len() > 0 {
        let rest = orders.drop_last();
        assert forall|i: int| 0 <= i < rest.len() implies -1_000_000_000 <= (
        #[trigger] rest[i]).remaining <= 1_000_000_000 by {
            assert(rest[i] == orders[i]);
        }
        lemma_pending_bound(rest, side);
        assert(orders[orders.len() - 1].remaining <= 1_000_000_000);
    }
}

/// Up to a million orders of up to a billion contracts each can be added up.
pub proof fn law_ordinary_orders_add_up(orders: Seq<Order>, side: Side)
    requires
        orders.len() <= 1_000_000,
        forall|i: int|
            0 <= i < orders.len() ==> -1_000_000_000 <= (#[trigger] orders[i]).remaining
                <= 1_000_000_000,
    ensures
        tracker::pending_fits(orders, side),
{
    assert forall|k: int| 0 <= k <= orders.len() implies book_side::fits_i64(
        #[trigger] tracker::pending(orders.take(k), side),
    ) by {
        let some = orders.take(k);
        assert forall|i: int| 0 <= i < some.len() implies -1_000_000_000 <= (
        #[trigger] some[i]).remaining <= 1_000_000_000 by {
            assert(some[i] == orders[i]);
        }
        lemma_pending_bound(some, side);
    }
}

/// What is pending adds up: that of two lists of orders is that of the first plus that of the second,
/// and one order counts with its remaining contracts on its own side alone.
pub proof fn law_pending_adds_up(a: Seq<Order>, b: Seq<Order>, one: Order, side: Side)
    ensures
        tracker::pending(a + b, side) == tracker::pending(a, side) + tracker::pending(b, side),
        tracker::pending(seq![one], one.side) == one.remaining,
        tracker::pending(seq![one], pairs::opposite(one.side)) == 0,
    decreases b.len(),
{
    if b.len() == 0 {
        assert(a + b =~= a);
    } else {
        law_pending_adds_up(a, b.drop_last(), one, side);
        assert((a + b).drop_last() =~= a + b.drop_last());
    }
    let single = seq![one];
    assert(tracker::pending(single.drop_last(), Side::Yes) == 0);
    assert(tracker::pending(single.drop_last(), Side::No) == 0);
}

/// An order is gone once nothing remains of it, and otherwise stands where it stood with the filled
/// contracts taken off, and nothing else about it changed. The other orders stay as they were.
pub proof fn law_fill_of_an_order(orders: Seq<Order>, i: int, count: i64, j: int)
    requires
        tracker::distinct_ids(orders),
        0 <= i < orders.len(),
        book_side::fits_i64(orders[i].remaining - count),
    ensures
        ({
            let after = tracker::after_fill(orders, orders[i].order_id@, count);
            &&& orders[i].remaining <= count ==> after.len() == orders.len() - 1 && after == orders.remove(
                i,
            )
            &&& orders[i].remaining > count ==> {
                &&& after.len() == orders.len()
                &&& after[i].remaining + count == orders[i].remaining
                &&& after[i].order_id == orders[i].order_id
                &&& after[i].side == orders[i].side
                &&& after[i].price == orders[i].price
                &&& after[i].placed_at == orders[i].placed_at
                &&& 0 <= j < orders.len() && j != i ==> after[j] == orders[j]
            }
        }),
{
    tracker::lemma_place_is_unique(orders, i);
}

/// A fill of an order that is not tracked changes nothing.
pub proof fn law_fill_of_an_unknown_order(orders: Seq<Order>, id: Seq<char>, count: i64)
    requires
        forall|i: int| 0 <= i < orders.len() ==> (#[trigger] orders[i]).order_id@ != id,
    ensures
        tracker::after_fill(orders, id, count) == orders,
        tracker::without(orders, id) == orders,
        tracker::fill_fits(orders, id, count),
{
    tracker::lemma_place_of(orders, id);
}

/// A fill of ordinary size is taken.
pub proof fn law_ordinary_order_fills_fit(orders: Seq<Order>, id: Seq<char>, count: i64)
    requires
        -1_000_000_000 <= count <= 1_000_000_000,
        forall|i: int|
            0 <= i < orders.len() ==> -1_000_000_000 <= (#[trigger] orders[i]).remaining
                <= 1_000_000_000,
    ensures
        tracker::fill_fits(orders, id, count),
{
    tracker::lemma_place_of(orders, id);
}

/// An order counts as stale exactly when it was placed more than ten seconds before, by the nanosecond.
pub proof fn law_stale_after_ten_seconds(order: Order, now: u128)
    ensures
        tracker::is_stale(order, now) <==> now > order.placed_at + 10_000_000_000,
{
}

/// Dropping the stale orders drops those older than ten seconds and no others.
pub proof fn law_only_old_orders_are_dropped(orders: Seq<Order>, now: u128, order: Order)
    requires
        orders.contains(order),
    ensures
        tracker::fresh(orders, now).contains(order) <==> now <= order.placed_at + 10_000_000_000,
        tracker::stale(orders, now).contains(order) <==> now > order.placed_at + 10_000_000_000,
        tracker::fresh(orders, now).len() + tracker::stale(orders, now).len() == orders.len(),
{
    let old = |o: Order| tracker::is_stale(o, now);
    let young = |o: Order| !tracker::is_stale(o, now);
    lemma_filter_contains(orders, old, order);
    lemma_filter_contains(orders, young, order);
    lemma_fresh_and_stale(orders, now);
}

proof fn lemma_fresh_and_stale(orders: Seq<Order>, now: u128)
    ensures
        tracker::fresh(orders, now).len() + tracker::stale(orders, now).len() == orders.len(),
    decreases orders.len(),
{
    reveal(Seq::filter);
    if orders.len() > 0 {
        lemma_fresh_and_stale(orders.drop_last(), now);
    }
}

/// An order is kept exactly when it meets the condition.
pub proof fn lemma_filter_contains(orders: Seq<Order>, p: spec_fn(Order) -> bool, order: Order)
    requires
        orders.contains(order),
    ensures
        orders.filter(p).contains(order) <==> p(order),
    decreases orders.len(),
{
    reveal(Seq::filter);
    if orders.len() > 0 {
        let rest = orders.drop_last();
        let below = rest.filter(p);
        let all = orders.filter(p);
        if orders.last() == order {
            if p(order) {
                assert(all[all.len() - 1] == order);
            } else {
                lemma_filter_meets(orders, p);
            }
        } else {
            let i = choose|i: int| 0 <= i < orders.len() && orders[i] == order;
            assert(rest[i] == order);
            lemma_filter_contains(rest, p, order);
            if below.contains(order) {
                let k = choose|k: int| 0 <= k < below.len() && below[k] == order;
                assert(all[k] == order);
            }
            if all.contains(order) {
                let k = choose|k: int| 0 <= k < all.len() && all[k] == order;
                if k < below.len() {
                    assert(below[k] == order);
                }
            }
        }
    }
}

proof fn lemma_filter_meets(orders: Seq<Order>, p: spec_fn(Order) -> bool)
    ensures
        forall|i: int| 0 <= i < orders.filter(p).len() ==> p(#[trigger] orders.filter(p)[i]),
    decreases orders.len(),
{
    reveal(Seq::filter);
    if orders.len() > 0 {
        let rest = orders.drop_last();
        lemma_filter_meets(rest, p);
        assert forall|i: int| 0 <= i < orders.filter(p).len() implies p(
            #[trigger] orders.filter(p)[i],
        ) by {
            if i < rest.filter(p).len() {
                assert(orders.filter(p)[i] == rest.filter(p)[i]);
            }
        }
    }
}

/// The orders of a side are exactly those that bid for that contract, and the two sides together hold
/// all orders.
pub proof fn law_sides_part_the_orders(orders: Seq<Order>, order: Order, side: Side)
    requires
        orders.contains(order),
    ensures
        tracker::on_side(orders, side).contains(order) <==> order.side == side,
        tracker::on_side(orders, Side::Yes).len() + tracker::on_side(orders, Side::No).len()
            == orders.len(),
{
    let on = |o: Order| o.side == side;
    lemma_filter_contains(orders, on, order);
    lemma_sides_len(orders);
}

proof fn lemma_sides_len(orders: Seq<Order>)
    ensures
        tracker::on_side(orders, Side::Yes).len() + tracker::on_side(orders, Side::No).len()
            == orders.len(),
    decreases orders.len(),
{
    reveal(Seq::filter);
    if orders.len() > 0 {
        lemma_sides_len(orders.drop_last());
    }
}

/// The ids of a list of orders are theirs, one for one.
pub proof fn law_ids_one_for_one(orders: Seq<Order>, i: int)
    requires
        0 <= i < orders.len(),
    ensures
        tracker::ids_of(orders).len() == orders.len(),
        tracker::ids_of(orders)[i] == orders[i].order_id,
{
}

} // verus!
