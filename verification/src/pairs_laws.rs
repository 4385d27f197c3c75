//! Laws of pairing off: nothing is lost, and the profit is exact.

use crate::book_side;
use crate::order_book::Side;
use crate::pairs;
use crate::pairs::PairTracker;
use vstd::prelude::*;

verus! {

/// The sum of a list of costs.
pub open spec fn cost_sum(legs: Seq<i64>) -> int
    decreases legs.len(),
{
    if legs.len() == 0 {
        0
    } else {
        cost_sum(legs.drop_last()) + legs.last()
    }
}

/// All that was ever paid for contracts, as the tracker shows it: the cost of the unpaired ones, and
/// for each pair 100 cents less its profit.
pub open spec fn paid(tracker: PairTracker) -> int {
    cost_sum(tracker.yes_legs@) + cost_sum(tracker.no_legs@) + 100 * tracker.pairs_completed
        - tracker.realized_pnl
}

/// Every contract of a fill ends up in a leg or in a pair.
pub proof fn law_fill_loses_no_contract(
    before: PairTracker,
    after: PairTracker,
    side: Side,
    yes_price: i64,
    count: i64,
    post_position: i64,
)
    requires
        before.fill_applied(after, side, yes_price, count, post_position),
    ensures
        after.yes_legs@.len() + after.no_legs@.len() + 2 * after.pairs_completed
            == before.yes_legs@.len() + before.no_legs@.len() + 2 * before.pairs_completed
            + book_side::max_of(count as int, 0),
{
}

/// The surplus of YES legs over NO legs moves as the position does: up by the count of a YES fill,
/// down by that of a NO fill.
pub proof fn law_leg_surplus_follows_fills(
    before: PairTracker,
    after: PairTracker,
    side: Side,
    yes_price: i64,
    count: i64,
    post_position: i64,
)
    requires
        before.fill_applied(after, side, yes_price, count, post_position),
    ensures
        after.yes_legs@.len() - after.no_legs@.len() == before.yes_legs@.len()
            - before.no_legs@.len() + match side {
            Side::Yes => book_side::max_of(count as int, 0),
            Side::No => -book_side::max_of(count as int, 0),
        },
{
}

/// Where the exchange reports what the fills add up to, the inventory is the starting one plus the
/// surplus of YES legs: a fill keeps that so.
pub proof fn law_inventory_is_leg_surplus(
    before: PairTracker,
    after: PairTracker,
    side: Side,
    yes_price: i64,
    count: i64,
    post_position: i64,
    start: int,
)
    requires
        count >= 0,
        before.fill_applied(after, side, yes_price, count, post_position),
        before.inventory == start + before.yes_legs@.len() - before.no_legs@.len(),
        post_position == before.counted_inventory(side, count),
    ensures
        after.inventory == start + after.yes_legs@.len() - after.no_legs@.len(),
{
}

/// The realized profit is exact: a fill adds to what was paid the cost of its contracts, no more and
/// no less.
pub proof fn law_profit_is_exact(
    before: PairTracker,
    after: PairTracker,
    side: Side,
    yes_price: i64,
    count: i64,
    post_position: i64,
)
    requires
        before.fill_fits(side, yes_price, count),
        before.fill_applied(after, side, yes_price, count, post_position),
    ensures
        paid(after) == paid(before) + book_side::max_of(count as int, 0) * pairs::leg_cost(
            side,
            yes_price,
        ),
{
    let cost = pairs::leg_cost(side, yes_price);
    let waiting = before.legs(pairs::opposite(side));
    let n = book_side::max_of(count as int, 0);
    let k = pairs::pairs_made(count as int, waiting.len());
    lemma_profit_from_costs(cost, waiting, k);
    lemma_cost_sum_split(waiting, k);
    if count > 0 {
        lemma_cost_sum_append(before.legs(side), pairs::equal_legs(cost, n - k));
        lemma_equal_legs_sum(cost, n - k);
    } else {
        assert(after.legs(side) =~= before.legs(side));
    }
    assert((n - k) * cost + k * cost == n * cost) by (nonlinear_arith);
}

/// A fill pairs with the oldest contracts first: the first pair is made with the first leg that
/// waited, and the legs that still wait keep their order.
pub proof fn law_first_in_first_out(
    before: PairTracker,
    after: PairTracker,
    side: Side,
    yes_price: i64,
    post_position: i64,
)
    requires
        before.legs(pairs::opposite(side)).len() > 0,
        before.fill_applied(after, side, yes_price, 1, post_position),
    ensures
        after.legs(pairs::opposite(side)) == before.legs(pairs::opposite(side)).drop_first(),
        after.legs(side) == before.legs(side),
        after.pairs_completed == before.pairs_completed + 1,
        after.realized_pnl == before.realized_pnl + 100 - pairs::leg_cost(side, yes_price)
            - before.legs(pairs::opposite(side))[0],
{
    let cost = pairs::leg_cost(side, yes_price);
    let waiting = before.legs(pairs::opposite(side));
    assert(waiting.skip(1) =~= waiting.drop_first());
    assert(before.legs(side) + pairs::equal_legs(cost, 0) =~= before.legs(side));
    assert(pairs::pair_profit(cost, waiting, 0) == 0);
    assert(pairs::pair_profit(cost, waiting, 1) == 100 - (cost + waiting[0]));
}

/// A fill in two parts at one price does what one fill of the sum does.
pub proof fn law_split_fill(
    before: PairTracker,
    between: PairTracker,
    split: PairTracker,
    whole: PairTracker,
    side: Side,
    yes_price: i64,
    first: i64,
    second: i64,
    middle_position: i64,
    post_position: i64,
)
    requires
        0 <= first,
        0 <= second,
        first + second <= i64::MAX,
        before.fill_applied(between, side, yes_price, first, middle_position),
        between.fill_applied(split, side, yes_price, second, post_position),
        before.fill_applied(whole, side, yes_price, (first + second) as i64, post_position),
    ensures
        split.inventory == whole.inventory,
        split.pairs_completed == whole.pairs_completed,
        split.realized_pnl == whole.realized_pnl,
        split.yes_legs@ == whole.yes_legs@,
        split.no_legs@ == whole.no_legs@,
{
    let cost = pairs::leg_cost(side, yes_price);
    let waiting = before.legs(pairs::opposite(side));
    let k1 = pairs::pairs_made(first as int, waiting.len());
    let rest = waiting.skip(k1);
    let k2 = pairs::pairs_made(second as int, rest.len());
    lemma_profit_split(cost, waiting, k1, k2);
    assert(rest.skip(k2) =~= waiting.skip(k1 + k2));
    assert(before.legs(side) + pairs::equal_legs(cost, first - k1) + pairs::equal_legs(
        cost,
        second - k2,
    ) =~= before.legs(side) + pairs::equal_legs(cost, first + second - k1 - k2));
    assert(pairs::pairs_made(first + second, waiting.len()) == k1 + k2);
}

proof fn lemma_profit_split(cost: int, waiting: Seq<i64>, k1: int, k2: int)
    requires
        0 <= k1,
        0 <= k2,
        k1 + k2 <= waiting.len(),
    ensures
        pairs::pair_profit(cost, waiting, k1 + k2) == pairs::pair_profit(cost, waiting, k1)
            + pairs::pair_profit(cost, waiting.skip(k1), k2),
    decreases k2,
{
    if k2 > 0 {
        lemma_profit_split(cost, waiting, k1, k2 - 1);
        assert(waiting.skip(k1)[k2 - 1] == waiting[k1 + k2 - 1]);
    }
}

proof fn lemma_profit_from_costs(cost: int, waiting: Seq<i64>, k: int)
    requires
        0 <= k <= waiting.len(),
    ensures
        pairs::pair_profit(cost, waiting, k) == 100 * k - k * cost - cost_sum(waiting.take(k)),
    decreases k,
{
    if k > 0 {
        lemma_profit_from_costs(cost, waiting, k - 1);
        assert(waiting.take(k).drop_last() =~= waiting.take(k - 1));
        assert((k - 1) * cost + cost == k * cost) by (nonlinear_arith);
    } else {
        assert(0 * cost == 0) by (nonlinear_arith);
    }
}

proof fn lemma_cost_sum_append(a: Seq<i64>, b: Seq<i64>)
    ensures
        cost_sum(a + b) == cost_sum(a) + cost_sum(b),
    decreases b.len(),
{
    if b.len() == 0 {
        assert(a + b =~= a);
    } else {
        assert((a + b).drop_last() =~= a + b.drop_last());
        lemma_cost_sum_append(a, b.drop_last());
    }
}

proof fn lemma_cost_sum_split(legs: Seq<i64>, k: int)
    requires
        0 <= k <= legs.len(),
    ensures
        cost_sum(legs) == cost_sum(legs.take(k)) + cost_sum(legs.skip(k)),
{
    assert(legs.take(k) + legs.skip(k) =~= legs);
    lemma_cost_sum_append(legs.take(k), legs.skip(k));
}

proof fn lemma_equal_legs_sum(cost: int, n: int)
    requires
        0 <= n,
        book_side::fits_i64(cost),
    ensures
        cost_sum(pairs::equal_legs(cost, n)) == n * cost,
    decreases n,
{
    if n > 0 {
        assert(pairs::equal_legs(cost, n).drop_last() =~= pairs::equal_legs(cost, n - 1));
        lemma_equal_legs_sum(cost, n - 1);
        assert((n - 1) * cost + cost == n * cost) by (nonlinear_arith);
    } else {
        assert(0 * cost == 0) by (nonlinear_arith);
    }
}

/// A YES contract costs its YES price: filled at `p`, it either completes a pair with the oldest NO
/// contract, of cost `c`, and earns `100 - p - c`, or waits as a leg of `p`. The NO legs behind that
/// one, and the YES legs that waited before, stay.
pub proof fn law_one_yes_contract(
    before: PairTracker,
    after: PairTracker,
    p: i64,
    post_position: i64,
)
    requires
        before.fill_fits(Side::Yes, p, 1),
        before.fill_applied(after, Side::Yes, p, 1, post_position),
    ensures
        after.inventory == post_position,
        before.no_legs@.len() > 0 ==> {
            &&& after.realized_pnl == before.realized_pnl + 100 - p - before.no_legs@[0]
            &&& after.pairs_completed == before.pairs_completed + 1
            &&& after.no_legs@ == before.no_legs@.drop_first()
            &&& after.yes_legs@ == before.yes_legs@
        },
        before.no_legs@.len() == 0 ==> {
            &&& after.realized_pnl == before.realized_pnl
            &&& after.pairs_completed == before.pairs_completed
            &&& after.no_legs@ == before.no_legs@
            &&& after.yes_legs@ == before.yes_legs@.push(p)
        },
{
    let waiting = before.no_legs@;
    assert(pairs::pair_profit(p as int, waiting, 0) == 0);
    if waiting.len() > 0 {
        assert(pairs::pair_profit(p as int, waiting, 1) == 100 - (p + waiting[0]));
        assert(waiting.skip(1) =~= waiting.drop_first());
        assert(before.yes_legs@ + pairs::equal_legs(p as int, 0) =~= before.yes_legs@);
    } else {
        assert(waiting.skip(0) =~= waiting);
        assert(before.yes_legs@ + pairs::equal_legs(p as int, 1) =~= before.yes_legs@.push(p));
    }
}

/// A NO contract filled at the YES price `p` costs `100 - p`: it either completes a pair with the
/// oldest YES contract, of cost `c`, and earns `p - c`, or waits as a leg of `100 - p`. The YES legs
/// behind that one, and the NO legs that waited before, stay.
pub proof fn law_one_no_contract(
    before: PairTracker,
    after: PairTracker,
    p: i64,
    post_position: i64,
)
    requires
        before.fill_fits(Side::No, p, 1),
        before.fill_applied(after, Side::No, p, 1, post_position),
    ensures
        after.inventory == post_position,
        before.yes_legs@.len() > 0 ==> {
            &&& after.realized_pnl == before.realized_pnl + p - before.yes_legs@[0]
            &&& after.pairs_completed == before.pairs_completed + 1
            &&& after.yes_legs@ == before.yes_legs@.drop_first()
            &&& after.no_legs@ == before.no_legs@
        },
        before.yes_legs@.len() == 0 ==> {
            &&& after.realized_pnl == before.realized_pnl
            &&& after.pairs_completed == before.pairs_completed
            &&& after.yes_legs@ == before.yes_legs@
            &&& after.no_legs@.len() == before.no_legs@.len() + 1
            &&& after.no_legs@.drop_last() == before.no_legs@
            &&& after.no_legs@.last() + p == 100
        },
{
    let waiting = before.yes_legs@;
    let cost = 100 - p;
    assert(pairs::pair_profit(cost, waiting, 0) == 0);
    if waiting.len() > 0 {
        assert(pairs::pair_profit(cost, waiting, 1) == 100 - (cost + waiting[0]));
        assert(waiting.skip(1) =~= waiting.drop_first());
        assert(before.no_legs@ + pairs::equal_legs(cost, 0) =~= before.no_legs@);
    } else {
        assert(waiting.skip(0) =~= waiting);
        assert(before.no_legs@ + pairs::equal_legs(cost, 1) =~= before.no_legs@.push(cost as i64));
        assert(after.no_legs@.drop_last() =~= before.no_legs@);
    }
}

/// Buying YES at one YES price and NO at another, in either order and nothing waiting before, earns
/// the difference: what the NO was sold for in YES terms less what the YES cost.
pub proof fn law_round_trip_earns_the_difference(
    before: PairTracker,
    between: PairTracker,
    after: PairTracker,
    first: Side,
    second: Side,
    first_price: i64,
    second_price: i64,
    middle_position: i64,
    post_position: i64,
)
    requires
        before.yes_legs@.len() == 0,
        before.no_legs@.len() == 0,
        first != second,
        before.fill_fits(first, first_price, 1),
        before.fill_applied(between, first, first_price, 1, middle_position),
        between.fill_fits(second, second_price, 1),
        between.fill_applied(after, second, second_price, 1, post_position),
    ensures
        after.realized_pnl - before.realized_pnl == match first {
            Side::Yes => second_price - first_price,
            Side::No => first_price - second_price,
        },
        after.pairs_completed == before.pairs_completed + 1,
        after.yes_legs@.len() == 0,
        after.no_legs@.len() == 0,
{
    match first {
        Side::Yes => {
            law_one_yes_contract(before, between, first_price, middle_position);
            law_one_no_contract(between, after, second_price, post_position);
        },
        Side::No => {
            law_one_no_contract(before, between, first_price, middle_position);
            law_one_yes_contract(between, after, second_price, post_position);
        },
    }
}

/// A fill of no contracts, or of a negative number of them, sets the position and changes nothing
/// else.
pub proof fn law_empty_fill(
    before: PairTracker,
    after: PairTracker,
    side: Side,
    yes_price: i64,
    count: i64,
    post_position: i64,
)
    requires
        count <= 0,
        before.fill_applied(after, side, yes_price, count, post_position),
    ensures
        after.inventory == post_position,
        after.realized_pnl == before.realized_pnl,
        after.pairs_completed == before.pairs_completed,
        after.yes_legs@ == before.yes_legs@,
        after.no_legs@ == before.no_legs@,
{
    let cost = pairs::leg_cost(side, yes_price);
    assert(before.legs(side) + pairs::equal_legs(cost, 0) =~= before.legs(side));
    assert(before.legs(pairs::opposite(side)).skip(0) =~= before.legs(pairs::opposite(side)));
}

/// What is paid and earned over a fill of any size: each contract paid its YES price, or 100 less it
/// for NO, and each pair brought back 100.
pub proof fn law_fill_pays_its_price(
    before: PairTracker,
    after: PairTracker,
    side: Side,
    yes_price: i64,
    count: i64,
    post_position: i64,
)
    requires
        count > 0,
        before.fill_fits(side, yes_price, count),
        before.fill_applied(after, side, yes_price, count, post_position),
    ensures
        paid(after) - paid(before) == match side {
            Side::Yes => count * yes_price,
            Side::No => count * (100 - yes_price),
        },
{
    law_profit_is_exact(before, after, side, yes_price, count, post_position);
}

/// A fill pairs as many contracts as it can: afterwards no contract of the other side waits, or every
/// contract of the fill is in a pair.
pub proof fn law_fill_pairs_all_it_can(
    before: PairTracker,
    after: PairTracker,
    side: Side,
    yes_price: i64,
    count: i64,
    post_position: i64,
)
    requires
        count > 0,
        before.fill_applied(after, side, yes_price, count, post_position),
    ensures
        ({
            let other_before = match side {
                Side::Yes => before.no_legs@.len(),
                Side::No => before.yes_legs@.len(),
            };
            let other_after = match side {
                Side::Yes => after.no_legs@.len(),
                Side::No => after.yes_legs@.len(),
            };
            &&& other_after == 0 || after.pairs_completed == before.pairs_completed + count
            &&& after.pairs_completed - before.pairs_completed == other_before - other_after
            &&& after.pairs_completed - before.pairs_completed <= count
        }),
{
}

/// Fills of ordinary size are taken: with prices and costs within 1000 cents and counts, pairs,
/// positions and profit within a billion, nothing overflows.
pub proof fn law_ordinary_fills_fit(
    tracker: PairTracker,
    side: Side,
    yes_price: i64,
    count: i64,
)
    requires
        -1000 <= yes_price <= 1000,
        -1_000_000_000 <= count <= 1_000_000_000,
        -1_000_000_000 <= tracker.inventory <= 1_000_000_000,
        -1_000_000_000 <= tracker.realized_pnl <= 1_000_000_000,
        tracker.pairs_completed <= 1_000_000_000,
        forall|i: int|
            0 <= i < tracker.yes_legs@.len() ==> -1000 <= #[trigger] tracker.yes_legs@[i] <= 1000,
        forall|i: int|
            0 <= i < tracker.no_legs@.len() ==> -1000 <= #[trigger] tracker.no_legs@[i] <= 1000,
    ensures
        tracker.fill_fits(side, yes_price, count),
{
    let cost = pairs::leg_cost(side, yes_price);
    let waiting = tracker.legs(pairs::opposite(side));
    let k = pairs::pairs_made(count as int, waiting.len());
    assert forall|i: int| 0 <= i < k implies {
        let leg = #[trigger] waiting[i];
        &&& book_side::fits_i64(cost + leg)
        &&& book_side::fits_i64(100 - (cost + leg))
    } by {
        assert(-1000 <= waiting[i] <= 1000);
    }
    assert forall|i: int| 0 <= i <= k implies book_side::fits_i64(
        tracker.realized_pnl + #[trigger] pairs::pair_profit(cost, waiting, i),
    ) by {
        lemma_profit_bound(cost, waiting, i);
    }
}

proof fn lemma_profit_bound(cost: int, waiting: Seq<i64>, k: int)
    requires
        -1100 <= cost <= 1100,
        0 <= k <= waiting.len(),
        forall|i: int| 0 <= i < waiting.len() ==> -1000 <= #[trigger] waiting[i] <= 1000,
    ensures
        -2200 * k <= pairs::pair_profit(cost, waiting, k) <= 2200 * k,
    decreases k,
{
    if k > 0 {
        lemma_profit_bound(cost, waiting, k - 1);
        assert(-1000 <= waiting[k - 1] <= 1000);
    }
}

/// A YES fill counts up and a NO fill counts down.
pub proof fn law_fills_move_the_position(tracker: PairTracker, count: i64)
    ensures
        tracker.counted_inventory(Side::Yes, count) == tracker.inventory + count,
        tracker.counted_inventory(Side::No, count) == tracker.inventory - count,
{
}

} // verus!
