//! From the orders that rest to the orders that are wanted: what to cancel and what to place.

use crate::order_book::Side;
use crate::quoting::DesiredOrders;
use crate::tracker;
use crate::tracker::{Order, Tracker};
use vstd::prelude::*;

verus! {

/// One step towards the wanted orders.
#[derive(Debug)]
pub enum Action {
    /// Cancel the order with this id.
    Cancel(String),
    /// Bid one order at this price, in the price of that contract.
    Place(Side, i64),
}

/// How often `price` occurs.
pub open spec fn times(prices: Seq<i64>, price: i64) -> int
    decreases prices.len(),
{
    if prices.len() == 0 {
        0
    } else {
        times(prices.drop_last(), price) + if prices.last() == price {
            1int
        } else {
            0
        }
    }
}

/// The prices of a list of orders.
pub open spec fn prices_of(orders: Seq<Order>) -> Seq<i64> {
    orders.map_values(|o: Order| o.price)
}

/// The orders that stay: each takes one wanted order at its price for itself, as long as there is
/// one left.
pub open spec fn kept(desired: Seq<i64>, current: Seq<Order>) -> Seq<Order>
    decreases current.len(),
{
    if current.len() == 0 {
        seq![]
    } else {
        let before = current.drop_last();
        let order = current.last();
        if times(prices_of(before), order.price) < times(desired, order.price) {
            kept(desired, before).push(order)
        } else {
            kept(desired, before)
        }
    }
}

/// The orders that go: those that found no wanted order at their price.
pub open spec fn dropped(desired: Seq<i64>, current: Seq<Order>) -> Seq<Order>
    decreases current.len(),
{
    if current.len() == 0 {
        seq![]
    } else {
        let before = current.drop_last();
        let order = current.last();
        if times(prices_of(before), order.price) < times(desired, order.price) {
            dropped(desired, before)
        } else {
            dropped(desired, before).push(order)
        }
    }
}

/// The wanted prices that no order stands for, when orders rest at the prices `taken`: at each price
/// the first ones wanted are the ones taken.
pub open spec fn missing(desired: Seq<i64>, taken: Seq<i64>) -> Seq<i64>
    decreases desired.len(),
{
    if desired.len() == 0 {
        seq![]
    } else {
        let before = desired.drop_last();
        let price = desired.last();
        if times(before, price) < times(taken, price) {
            missing(before, taken)
        } else {
            missing(before, taken).push(price)
        }
    }
}

/// A cancel for each of these orders.
pub open spec fn cancels(orders: Seq<Order>) -> Seq<Action> {
    orders.map_values(|o: Order| Action::Cancel(o.order_id))
}

/// A bid at each of these prices.
pub open spec fn placements(side: Side, prices: Seq<i64>) -> Seq<Action> {
    prices.map_values(|p: i64| Action::Place(side, p))
}

/// What takes one side from its orders to the wanted prices: the cancels, then the bids.
pub open spec fn side_actions(desired: Seq<i64>, current: Seq<Order>, side: Side) -> Seq<Action> {
    cancels(dropped(desired, current)) + placements(side, missing(desired, prices_of(current)))
}

/// What takes the orders to the wanted ones: YES, then NO.
pub open spec fn all_actions(yes_prices: Seq<i64>, no_prices: Seq<i64>, orders: Seq<Order>) -> Seq<
    Action,
> {
    side_actions(yes_prices, tracker::on_side(orders, Side::Yes), Side::Yes) + side_actions(
        no_prices,
        tracker::on_side(orders, Side::No),
        Side::No,
    )
}

/// Where `price` stands first.
pub open spec fn is_first(prices: Seq<i64>, price: i64, i: int) -> bool {
    &&& 0 <= i < prices.len()
    &&& prices[i] == price
    &&& forall|j: int| 0 <= j < i ==> prices[j] != price
}

/// A price is counted exactly when it occurs.
pub proof fn lemma_times(prices: Seq<i64>, price: i64)
    ensures
        times(prices, price) >= 0,
        times(prices, price) == 0 <==> !prices.contains(price),
    decreases prices.len(),
{
    if prices.len() > 0 {
        let before = prices.drop_last();
        lemma_times(before, price);
        if prices.last() == price {
            assert(prices[prices.len() - 1] == price);
        } else if prices.contains(price) {
            let i = choose|i: int| 0 <= i < prices.len() && prices[i] == price;
            assert(before[i] == price);
        } else if before.contains(price) {
            let i = choose|i: int| 0 <= i < before.len() && before[i] == price;
            assert(prices[i] == price);
        }
    }
}

/// One more order adds one to the count at its price.
pub proof fn lemma_times_push(prices: Seq<i64>, added: i64, price: i64)
    ensures
        times(prices.push(added), price) == times(prices, price) + if added == price {
            1int
        } else {
            0
        },
{
    assert(prices.push(added).drop_last() =~= prices);
}

/// What is missing at a price is what is wanted there less what rests there.
pub proof fn lemma_missing_times(desired: Seq<i64>, taken: Seq<i64>, price: i64)
    ensures
        times(missing(desired, taken), price) == if times(desired, price) > times(taken, price) {
            times(desired, price) - times(taken, price)
        } else {
            0
        },
    decreases desired.len(),
{
    lemma_times(taken, price);
    if desired.len() > 0 {
        let before = desired.drop_last();
        lemma_missing_times(before, taken, price);
        lemma_times(before, price);
        if times(before, desired.last()) >= times(taken, desired.last()) {
            lemma_times_push(missing(before, taken), desired.last(), price);
        }
    }
}

/// An order at a price where nothing is missing changes nothing.
proof fn lemma_missing_unmatched(desired: Seq<i64>, taken: Seq<i64>, price: i64)
    requires
        times(desired, price) <= times(taken, price),
    ensures
        missing(desired, taken.push(price)) == missing(desired, taken),
    decreases desired.len(),
{
    if desired.len() > 0 {
        let before = desired.drop_last();
        let last = desired.last();
        lemma_times_push(taken, price, last);
        lemma_missing_unmatched(before, taken, price);
    }
}

/// An order at a missing price takes the first one missing there.
proof fn lemma_missing_matched(desired: Seq<i64>, taken: Seq<i64>, price: i64, i: int)
    requires
        is_first(missing(desired, taken), price, i),
    ensures
        missing(desired, taken.push(price)) == missing(desired, taken).remove(i),
    decreases desired.len(),
{
    if desired.len() > 0 {
        let before = desired.drop_last();
        let last = desired.last();
        let inner = missing(before, taken);
        lemma_times_push(taken, price, last);
        lemma_missing_times(before, taken, price);
        lemma_times(inner, price);
        if last == price {
            if times(before, price) < times(taken, price) {
                assert(missing(desired, taken)[i] == price);
                assert(inner.contains(price));
            } else if times(before, price) == times(taken, price) {
                if i < inner.len() {
                    assert(inner[i] == price);
                }
                lemma_missing_unmatched(before, taken, price);
                assert(inner.push(price).remove(i) =~= inner);
            } else {
                let j = choose|j: int| 0 <= j < inner.len() && inner[j] == price;
                if i == inner.len() {
                    assert(missing(desired, taken)[j] == price);
                }
                assert forall|m: int| 0 <= m < i implies inner[m] != price by {
                    assert(missing(desired, taken)[m] != price);
                }
                assert(inner[i] == price);
                lemma_missing_matched(before, taken, price, i);
                assert(inner.push(price).remove(i) =~= inner.remove(i).push(price));
            }
        } else {
            assert(missing(desired, taken)[i] == price);
            assert(i < inner.len() && inner[i] == price);
            assert forall|m: int| 0 <= m < i implies inner[m] != price by {
                assert(missing(desired, taken)[m] != price);
            }
            lemma_missing_matched(before, taken, price, i);
            assert(inner.push(last).remove(i) =~= inner.remove(i).push(last));
        }
    }
}

/// Where nothing rests, everything wanted is missing.
pub proof fn lemma_missing_all(desired: Seq<i64>)
    ensures
        missing(desired, seq![]) == desired,
    decreases desired.len(),
{
    if desired.len() > 0 {
        let before = desired.drop_last();
        lemma_missing_all(before);
        lemma_times(before, desired.last());
        assert(before.push(desired.last()) =~= desired);
    }
}

/// The first place of `price`.
fn position(prices: &Vec<i64>, price: i64) -> (place: Option<usize>)
    ensures
        place matches Some(i) ==> is_first(prices@, price, i as int),
        place is None ==> !prices@.contains(price),
{
    let mut i: usize = 0;
    while i < prices.len()
        invariant
            i <= prices.len(),
            forall|j: int| 0 <= j < i ==> prices@[j] != price,
        decreases prices.len() - i,
    {
        if prices[i] == price {
            return Some(i);
        }
        i += 1;
    }
    None
}

/// Adds what takes one side from its orders to the wanted prices.
fn reconcile_side(desired: &Vec<i64>, orders: &Vec<Order>, side: Side, actions: &mut Vec<Action>)
    ensures
        final(actions)@ == old(actions)@ + side_actions(
            desired@,
            tracker::on_side(orders@, side),
            side,
        ),
{
    let mut unmatched: Vec<i64> = desired.clone();
    let mut i: usize = 0;
    let ghost start = actions@;
    proof {
        reveal(Seq::filter);
        assert(orders@.take(0) =~= seq![]);
        assert(prices_of(seq![]) =~= seq![]);
        assert(unmatched@ =~= desired@);
        lemma_missing_all(desired@);
        assert(actions@ =~= start + cancels(seq![]));
    }
    while i < orders.len()
        invariant
            i <= orders.len(),
            unmatched@ == missing(
                desired@,
                prices_of(tracker::on_side(orders@.take(i as int), side)),
            ),
            actions@ == start + cancels(
                dropped(desired@, tracker::on_side(orders@.take(i as int), side)),
            ),
        decreases orders.len() - i,
    {
        let ghost seen = tracker::on_side(orders@.take(i as int), side);
        let ghost order = orders@[i as int];
        proof {
            reveal(Seq::filter);
            assert(orders@.take(i + 1).drop_last() =~= orders@.take(i as int));
        }
        if orders[i].side == side {
            let price: i64 = orders[i].price;
            let ghost current = seen.push(order);
            proof {
                assert(tracker::on_side(orders@.take(i + 1), side) == current);
                assert(current.drop_last() =~= seen);
                assert(prices_of(current) =~= prices_of(seen).push(price));
                lemma_missing_times(desired@, prices_of(seen), price);
                lemma_times(unmatched@, price);
            }
            match position(&unmatched, price) {
                Some(idx) => {
                    proof {
                        assert(unmatched@[idx as int] == price);
                        lemma_missing_matched(desired@, prices_of(seen), price, idx as int);
                    }
                    unmatched.remove(idx);
                },
                None => {
                    proof {
                        lemma_missing_unmatched(desired@, prices_of(seen), price);
                        let gone = dropped(desired@, seen);
                        assert(cancels(gone.push(order)) =~= cancels(gone).push(
                            Action::Cancel(order.order_id),
                        ));
                    }
                    actions.push(Action::Cancel(orders[i].order_id.clone()));
                },
            }
        }
        i += 1;
    }
    assert(orders@.take(i as int) =~= orders@);
    let ghost gone = actions@;
    let mut j: usize = 0;
    while j < unmatched.len()
        invariant
            j <= unmatched.len(),
            actions@ == gone + placements(side, unmatched@.take(j as int)),
        decreases unmatched.len() - j,
    {
        actions.push(Action::Place(side, unmatched[j]));
        assert(actions@ =~= gone + placements(side, unmatched@.take(j + 1)));
        j += 1;
    }
    assert(unmatched@.take(j as int) =~= unmatched@);
}

/// What takes the resting orders to the wanted ones. An order at a wanted price stays; every other
/// one is canceled; a wanted price without an order is bid for.
pub fn reconcile(desired: &DesiredOrders, tracker: &Tracker) -> (actions: Vec<Action>)
    ensures
        actions@ == all_actions(desired.yes_prices@, desired.no_prices@, tracker.orders@),
{
    let mut actions: Vec<Action> = Vec::new();
    reconcile_side(&desired.yes_prices, &tracker.orders, Side::Yes, &mut actions);
    reconcile_side(&desired.no_prices, &tracker.orders, Side::No, &mut actions);
    actions
}

} // verus!
