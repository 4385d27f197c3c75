//! Laws of the order book: what holds over several operations.

use crate::bits;
use crate::book_side;
use crate::book_side::BookSide;
use crate::order_book;
use crate::order_book::OrderBook;
use vstd::prelude::*;

verus! {

/// The prices that count as occupied are exactly those with a positive quantity.
pub open spec fn occupied_iff_positive(side: BookSide) -> bool {
    forall|p: int| #[trigger]
        bits::has_bit(side.occupied, p) <==> book_side::valid_price(p) && side.quantities@[p] > 0
}

/// The sum over the whole price axis.
pub open spec fn quantity_sum(side: BookSide) -> int {
    book_side::sum_between(side.quantities@, 0, book_side::MAX_PRICE as int)
}

/// The sum of the quantities in `levels` that a later level at the same price replaced.
pub open spec fn superseded_total(levels: Seq<(i64, i64)>) -> int
    decreases levels.len(),
{
    if levels.len() == 0 {
        0
    } else if book_side::valid_price(levels.last().0 as int) {
        superseded_total(levels.drop_last()) + book_side::listed_qty(
            levels.drop_last(),
            levels.last().0 as int,
        )
    } else {
        superseded_total(levels.drop_last())
    }
}

/// The quantities that `levels` leaves, along the price axis.
pub open spec fn listed_axis(levels: Seq<(i64, i64)>) -> Seq<i64> {
    Seq::new(
        book_side::MAX_PRICE as nat,
        |p: int|
            if book_side::valid_price(p) {
                book_side::listed_qty(levels, p)
            } else {
                0
            },
    )
}

/// A delta keeps the occupied prices those with a positive quantity.
pub proof fn law_delta_keeps_occupied_iff_positive(
    before: BookSide,
    after: BookSide,
    price: i64,
    delta: i64,
)
    requires
        occupied_iff_positive(before),
        before.delta_fits(price, delta),
        before.delta_applied(after, price, delta),
    ensures
        occupied_iff_positive(after),
{
    if book_side::valid_price(price as int) {
        assert forall|p: int| #[trigger]
            bits::has_bit(after.occupied, p) <==> book_side::valid_price(p) && after.quantities@[p]
                > 0 by {
            assert(bits::has_bit(before.occupied, p) <==> book_side::valid_price(p)
                && before.quantities@[p] > 0);
        }
    }
}

/// After a snapshot the occupied prices are those with a positive quantity, however often a price was
/// listed.
pub proof fn law_snapshot_occupied_iff_positive(side: BookSide, levels: Seq<(i64, i64)>)
    requires
        side.is_snapshot(levels),
    ensures
        occupied_iff_positive(side),
{
    assert forall|p: int| #[trigger]
        bits::has_bit(side.occupied, p) <==> book_side::valid_price(p) && side.quantities@[p]
            > 0 by {
        if book_side::valid_price(p) {
            assert(side.quantities@[p] == book_side::listed_qty(levels, p));
        }
    }
}

/// The best bid is a price with contracts on it, and no price above it has any; without contracts it
/// is 0.
pub proof fn law_best_bid_has_contracts(side: BookSide)
    requires
        side.wf(),
    ensures
        side.best_bid == 0 || (book_side::valid_price(side.best_bid as int)
            && side.quantities@[side.best_bid as int] > 0),
        forall|p: int|
            side.best_bid < p && book_side::valid_price(p) ==> #[trigger] side.quantities@[p] <= 0,
{
    book_side::lemma_best_of_is_best(side.occupied);
    if side.occupied != 0 {
        assert(bits::has_bit(side.occupied, side.best_bid as int));
    }
    assert forall|p: int| side.best_bid < p && book_side::valid_price(
        p,
    ) implies #[trigger] side.quantities@[p] <= 0 by {
        assert(!bits::has_bit(side.occupied, p));
    }
}

/// Changing one entry changes the sum by the difference.
proof fn lemma_sum_update(q: Seq<i64>, i: int, v: i64, lo: int, hi: int)
    requires
        0 <= lo <= i < hi <= q.len(),
    ensures
        book_side::sum_between(q.update(i, v), lo, hi) == book_side::sum_between(q, lo, hi) - q[i]
            + v,
    decreases hi - lo,
{
    if hi - 1 == i {
        lemma_sum_same(q.update(i, v), q, lo, hi - 1);
    } else {
        lemma_sum_update(q, i, v, lo, hi - 1);
    }
}

/// Equal entries have equal sums.
proof fn lemma_sum_same(a: Seq<i64>, b: Seq<i64>, lo: int, hi: int)
    requires
        forall|p: int| lo <= p < hi ==> a[p] == b[p],
    ensures
        book_side::sum_between(a, lo, hi) == book_side::sum_between(b, lo, hi),
    decreases hi - lo,
{
    if lo < hi {
        lemma_sum_same(a, b, lo, hi - 1);
    }
}

/// A run of zeros sums to zero.
proof fn lemma_sum_zero(a: Seq<i64>, lo: int, hi: int)
    requires
        forall|p: int| lo <= p < hi ==> a[p] == 0,
    ensures
        book_side::sum_between(a, lo, hi) == 0,
    decreases hi - lo,
{
    if lo < hi {
        lemma_sum_zero(a, lo, hi - 1);
    }
}

/// A delta moves the total by as much as the sum of the quantities: a total that was right stays
/// right.
pub proof fn law_delta_moves_total_with_sum(
    before: BookSide,
    after: BookSide,
    price: i64,
    delta: i64,
)
    requires
        before.delta_fits(price, delta),
        before.delta_applied(after, price, delta),
    ensures
        after.total_qty - quantity_sum(after) == before.total_qty - quantity_sum(before),
{
    if book_side::valid_price(price as int) {
        let new_qty = book_side::qty_after(before.quantities@[price as int], delta);
        lemma_sum_update(
            before.quantities@,
            price as int,
            new_qty as i64,
            0,
            book_side::MAX_PRICE as int,
        );
    }
}

/// After a snapshot the total is the sum of the quantities plus what was listed and then replaced.
pub proof fn law_snapshot_total(side: BookSide, levels: Seq<(i64, i64)>)
    requires
        side.is_snapshot(levels),
    ensures
        side.total_qty == quantity_sum(side) + superseded_total(levels),
{
    lemma_listed_total(levels);
    lemma_sum_same(side.quantities@, listed_axis(levels), 0, book_side::MAX_PRICE as int);
}

proof fn lemma_listed_total(levels: Seq<(i64, i64)>)
    ensures
        book_side::listed_total(levels) == book_side::sum_between(
            listed_axis(levels),
            0,
            book_side::MAX_PRICE as int,
        ) + superseded_total(levels),
    decreases levels.len(),
{
    if levels.len() == 0 {
        lemma_sum_zero(listed_axis(levels), 0, book_side::MAX_PRICE as int);
    } else {
        let rest = levels.drop_last();
        let (price, qty) = levels.last();
        lemma_listed_total(rest);
        if book_side::valid_price(price as int) {
            assert(listed_axis(levels) =~= listed_axis(rest).update(price as int, qty));
            lemma_sum_update(
                listed_axis(rest),
                price as int,
                qty,
                0,
                book_side::MAX_PRICE as int,
            );
        } else {
            assert(listed_axis(levels) =~= listed_axis(rest));
        }
    }
}

/// Where no price of 1 to 99 is listed twice, nothing is replaced: the total after a snapshot is the sum of
/// the quantities.
pub proof fn law_distinct_levels_replace_nothing(levels: Seq<(i64, i64)>)
    requires
        forall|i: int, j: int|
            0 <= i < j < levels.len() && book_side::valid_price(levels[i].0 as int)
                ==> levels[i].0 != levels[j].0,
    ensures
        superseded_total(levels) == 0,
    decreases levels.len(),
{
    if levels.len() > 0 {
        let rest = levels.drop_last();
        law_distinct_levels_replace_nothing(rest);
        let n = levels.len() - 1;
        if book_side::valid_price(levels.last().0 as int) {
            assert forall|i: int| 0 <= i < rest.len() implies rest[i].0 != levels.last().0 by {
                if book_side::valid_price(levels[i].0 as int) {
                    assert(levels[i].0 != levels[n].0);
                }
            }
            lemma_not_listed(rest, levels.last().0 as int);
        }
    }
}

proof fn lemma_not_listed(levels: Seq<(i64, i64)>, price: int)
    requires
        forall|i: int| 0 <= i < levels.len() ==> levels[i].0 != price,
    ensures
        book_side::listed_qty(levels, price) == 0,
    decreases levels.len(),
{
    if levels.len() > 0 {
        assert(levels[levels.len() - 1].0 != price);
        lemma_not_listed(levels.drop_last(), price);
    }
}

/// The levels come best first, each is an occupied price with its quantity, and no occupied price
/// is missing.
pub proof fn law_levels_best_first(side: BookSide)
    ensures
        forall|i: int, j: int|
            0 <= i < j < side.levels().len() ==> side.levels()[i].0 > side.levels()[j].0,
        forall|i: int|
            0 <= i < side.levels().len() ==> {
                let level = #[trigger] side.levels()[i];
                &&& 0 <= level.0 < book_side::MAX_PRICE
                &&& bits::has_bit(side.occupied, level.0 as int)
                &&& level.1 == side.quantities@[level.0 as int]
            },
        forall|p: int|
            p < book_side::MAX_PRICE && #[trigger] bits::has_bit(side.occupied, p) ==> exists|i: int|
                0 <= i < side.levels().len() && (#[trigger] side.levels()[i]).0 == p,
{
    lemma_levels_below(side.quantities@, side.occupied, book_side::MAX_PRICE as int);
    let levels = book_side::levels_below(
        side.quantities@,
        side.occupied,
        book_side::MAX_PRICE as int,
    );
    assert forall|p: int|
        p < book_side::MAX_PRICE && #[trigger] bits::has_bit(side.occupied, p) implies exists|
        i: int,
    |
        0 <= i < side.levels().len() && (#[trigger] side.levels()[i]).0 == p by {
        let i = choose|i: int| 0 <= i < levels.len() && (#[trigger] levels[i]).0 == p;
        assert(side.levels()[i].0 == p);
    }
}

proof fn lemma_levels_below(q: Seq<i64>, mask: u128, bound: int)
    requires
        bound <= book_side::MAX_PRICE,
    ensures
        ({
            let levels = book_side::levels_below(q, mask, bound);
            &&& forall|i: int, j: int| 0 <= i < j < levels.len() ==> levels[i].0 > levels[j].0
            &&& forall|i: int|
                0 <= i < levels.len() ==> {
                    let level = #[trigger] levels[i];
                    &&& 0 <= level.0 < bound
                    &&& bits::has_bit(mask, level.0 as int)
                    &&& level.1 == q[level.0 as int]
                }
            &&& forall|p: int|
                p < bound && #[trigger] bits::has_bit(mask, p) ==> exists|i: int|
                    0 <= i < levels.len() && (#[trigger] levels[i]).0 == p
        }),
    decreases bound,
{
    if bound > 0 {
        let levels = book_side::levels_below(q, mask, bound);
        let rest = book_side::levels_below(q, mask, bound - 1);
        lemma_levels_below(q, mask, bound - 1);
        if bits::has_bit(mask, bound - 1) {
            assert(levels.len() == rest.len() + 1);
            assert(levels[0] == ((bound - 1) as i64, q[bound - 1]));
            assert forall|i: int| 1 <= i < levels.len() implies levels[i] == rest[i - 1] by {}
            assert forall|p: int| p < bound && #[trigger] bits::has_bit(mask, p) implies exists|
                i: int,
            |
                0 <= i < levels.len() && (#[trigger] levels[i]).0 == p by {
                if p < bound - 1 {
                    let i = choose|i: int| 0 <= i < rest.len() && (#[trigger] rest[i]).0 == p;
                    assert(levels[i + 1].0 == p);
                } else {
                    assert(levels[0].0 == p);
                }
            }
        }
    }
}

/// The first level is the best bid; a side without levels has the best bid 0.
pub proof fn law_first_level_is_best_bid(side: BookSide)
    requires
        side.wf(),
    ensures
        side.best_bid == 0 <==> side.levels().len() == 0,
        side.best_bid > 0 ==> side.levels()[0] == (
            side.best_bid,
            side.quantities@[side.best_bid as int],
        ),
{
    law_levels_best_first(side);
    book_side::lemma_best_of_is_best(side.occupied);
    let levels = side.levels();
    if side.occupied != 0 {
        let b = side.best_bid as int;
        assert(bits::has_bit(side.occupied, b));
        let i = choose|i: int| 0 <= i < levels.len() && (#[trigger] levels[i]).0 == b;
        if i > 0 {
            assert(levels[0].0 > levels[i].0);
            assert(bits::has_bit(side.occupied, levels[0].0 as int));
        }
    } else if levels.len() > 0 {
        assert(bits::has_bit(side.occupied, levels[0].0 as int));
    }
}

/// Asking for the best bid below each level in turn walks down the levels in order, and ends with 0
/// below the last.
pub proof fn law_best_bid_below_walks_levels(side: BookSide, i: int, below: int)
    requires
        side.wf(),
        0 <= i < side.levels().len(),
        book_side::is_best_below(side.occupied, side.levels()[i].0 as int, below),
    ensures
        i + 1 < side.levels().len() ==> below == side.levels()[i + 1].0,
        i + 1 == side.levels().len() ==> below == 0,
{
    law_levels_best_first(side);
    let levels = side.levels();
    let price = levels[i].0 as int;
    if i + 1 < levels.len() {
        let next = levels[i + 1].0 as int;
        assert(bits::has_bit(side.occupied, next) && next < price);
        assert(bits::has_bit(side.occupied, below));
        let j = choose|j: int| 0 <= j < levels.len() && (#[trigger] levels[j]).0 == below;
        assert(j > i) by {
            if j < i {
                assert(levels[j].0 > levels[i].0);
            }
        }
        if j > i + 1 {
            assert(levels[i + 1].0 > levels[j].0);
        }
    } else {
        assert forall|p: int| p < price implies !#[trigger] bits::has_bit(side.occupied, p) by {
            if bits::has_bit(side.occupied, p) {
                let j = choose|j: int| 0 <= j < levels.len() && (#[trigger] levels[j]).0 == p;
                if j < i {
                    assert(levels[j].0 > levels[i].0);
                }
            }
        }
    }
}

/// Above all levels, the best bid below is the best bid.
pub proof fn law_best_bid_below_the_ceiling(side: BookSide, ceiling: int, below: int)
    requires
        side.wf(),
        ceiling > side.best_bid,
        book_side::is_best_below(side.occupied, ceiling, below),
    ensures
        below == side.best_bid,
{
    book_side::lemma_best_of_is_best(side.occupied);
    if side.occupied != 0 {
        assert(bits::has_bit(side.occupied, side.best_bid as int));
        if below < side.best_bid {
            assert(!bits::has_bit(side.occupied, side.best_bid as int));
        }
    }
}

/// A delta that leaves a level at 0 or above is undone by the opposite delta: the side is again what
/// it was.
pub proof fn law_opposite_delta_undoes(
    before: BookSide,
    between: BookSide,
    after: BookSide,
    price: i64,
    delta: i64,
)
    requires
        before.wf(),
        delta > i64::MIN,
        book_side::valid_price(price as int) ==> before.quantities@[price as int] >= 0
            && before.quantities@[price as int] + delta >= 0,
        before.delta_fits(price, delta),
        before.delta_applied(between, price, delta),
        between.delta_fits(price, (-delta) as i64),
        between.delta_applied(after, price, (-delta) as i64),
    ensures
        after.quantities@ == before.quantities@,
        after.occupied == before.occupied,
        after.best_bid == before.best_bid,
        after.total_qty == before.total_qty,
{
    if book_side::valid_price(price as int) {
        book_side::lemma_delta_keeps_wf(before, between, price, delta);
        book_side::lemma_delta_keeps_wf(between, after, price, (-delta) as i64);
        assert(after.quantities@ =~= before.quantities@);
        assert forall|p: int| bits::bits_agree(after.occupied, before.occupied, p) by {
            assert(bits::has_bit(between.occupied, p) || !bits::has_bit(between.occupied, p));
            assert(bits::has_bit(after.occupied, p) || !bits::has_bit(after.occupied, p));
            assert(bits::has_bit(before.occupied, p) <==> book_side::valid_price(p)
                && before.quantities@[p] > 0);
        }
        bits::lemma_same_bits(after.occupied, before.occupied);
    }
}

/// Two sides that a snapshot made hold the same, whatever they held before.
pub proof fn law_snapshot_forgets(a: BookSide, b: BookSide, levels: Seq<(i64, i64)>)
    requires
        a.is_snapshot(levels),
        b.is_snapshot(levels),
    ensures
        a.quantities@ == b.quantities@,
        a.occupied == b.occupied,
        a.best_bid == b.best_bid,
        a.total_qty == b.total_qty,
{
    assert(a.quantities@ =~= b.quantities@);
    assert forall|p: int| bits::bits_agree(a.occupied, b.occupied, p) by {
        assert(bits::has_bit(a.occupied, p) <==> book_side::valid_price(p)
            && book_side::listed_qty(levels, p) > 0);
    }
    bits::lemma_same_bits(a.occupied, b.occupied);
}

/// A YES bid at `y` and a NO bid at `n` leave a spread of `100 - y - n`; the book is quoted exactly
/// when both bids are there and together stay below 100.
pub proof fn law_spread_from_bids(book: OrderBook)
    requires
        book.wf(),
    ensures
        book.quoted() <==> book.yes_bids.best_bid > 0 && book.no_bids.best_bid > 0
            && book.yes_bids.best_bid + book.no_bids.best_bid < 100,
        book.no_bids.best_bid > 0 ==> 1 <= book.yes_ask() <= 99,
        book.quoted() ==> book.yes_ask() - book.yes_bids.best_bid == 100 - book.yes_bids.best_bid
            - book.no_bids.best_bid,
{
    book_side::lemma_best_of_is_best(book.no_bids.occupied);
    if book.no_bids.best_bid > 0 {
        assert(bits::has_bit(book.no_bids.occupied, book.no_bids.best_bid as int));
    }
}

/// Within 0 cents of the best bid lies the best bid alone.
pub proof fn law_depth_at_the_top(side: BookSide)
    requires
        side.wf(),
        side.best_bid > 0,
    ensures
        order_book::side_depth(side, 0) == side.quantities@[side.best_bid as int],
{
    let b = side.best_bid as int;
    assert(book_side::sum_between(side.quantities@, b, b) == 0);
    assert(book_side::sum_between(side.quantities@, b, b + 1) == side.quantities@[b]);
}

/// A second look at the same top of the book gives no event.
pub proof fn law_second_look_is_silent(bid: int, ask: int)
    ensures
        order_book::top_events(Some((bid, ask)), bid, ask).len() == 0,
{
}

/// A snapshot leaves at each price the quantity listed for it last, and nothing at a price that is not
/// listed or lies outside 1 to 99.
pub proof fn law_snapshot_holds_the_last_quantities(
    side: BookSide,
    levels: Seq<(i64, i64)>,
    i: int,
    p: int,
)
    requires
        side.is_snapshot(levels),
    ensures
        0 <= i < levels.len() && 1 <= levels[i].0 <= 99 && (forall|j: int|
            i < j < levels.len() ==> (#[trigger] levels[j]).0 != levels[i].0)
            ==> side.quantities@[levels[i].0 as int] == levels[i].1,
        0 <= p < 100 && (p == 0 || forall|j: int|
            0 <= j < levels.len() ==> (#[trigger] levels[j]).0 != p) ==> side.quantities@[p] == 0,
{
    if 0 <= i < levels.len() && 1 <= levels[i].0 <= 99 && (forall|j: int|
        i < j < levels.len() ==> (#[trigger] levels[j]).0 != levels[i].0) {
        lemma_listed_last(levels, i);
        let price = levels[i].0 as int;
        assert(side.quantities@[price] == book_side::listed_qty(levels, price));
    }
    if 0 <= p < 100 {
        assert(side.quantities@[p] == if book_side::valid_price(p) {
            book_side::listed_qty(levels, p)
        } else {
            0
        });
        if p != 0 && (forall|j: int| 0 <= j < levels.len() ==> (#[trigger] levels[j]).0 != p) {
            lemma_not_listed(levels, p);
        }
    }
}

proof fn lemma_listed_last(levels: Seq<(i64, i64)>, i: int)
    requires
        0 <= i < levels.len(),
        forall|j: int| i < j < levels.len() ==> (#[trigger] levels[j]).0 != levels[i].0,
    ensures
        book_side::listed_qty(levels, levels[i].0 as int) == levels[i].1,
    decreases levels.len(),
{
    if i < levels.len() - 1 {
        let rest = levels.drop_last();
        assert(levels[levels.len() - 1].0 != levels[i].0);
        assert forall|j: int| i < j < rest.len() implies (#[trigger] rest[j]).0 != rest[i].0 by {
            assert(levels[j].0 != levels[i].0);
        }
        lemma_listed_last(rest, i);
    }
}

/// The best bid after a snapshot is the highest price left with a positive quantity, 0 without one.
pub proof fn law_snapshot_best_bid(side: BookSide, levels: Seq<(i64, i64)>, p: int)
    requires
        side.is_snapshot(levels),
    ensures
        side.wf(),
        side.best_bid == 0 || (1 <= side.best_bid <= 99 && side.quantities@[side.best_bid as int]
            > 0),
        1 <= p <= 99 && side.quantities@[p] > 0 ==> p <= side.best_bid,
{
    law_snapshot_occupied_iff_positive(side, levels);
    law_best_bid_has_contracts(side);
}

/// One more level in a snapshot adds its quantity to the total, where its price lies within 1 to 99; a
/// snapshot without levels has the total 0.
pub proof fn law_snapshot_total_level_by_level(
    a: BookSide,
    b: BookSide,
    levels: Seq<(i64, i64)>,
    price: i64,
    qty: i64,
)
    requires
        a.is_snapshot(levels),
        b.is_snapshot(levels.push((price, qty))),
    ensures
        levels.len() == 0 ==> a.total_qty == 0,
        b.total_qty == a.total_qty + if 1 <= price <= 99 {
            qty as int
        } else {
            0
        },
{
    assert(levels.push((price, qty)).drop_last() =~= levels);
}

/// Snapshots of ordinary size are taken: up to a million levels of up to a billion contracts.
pub proof fn law_ordinary_snapshots_fit(levels: Seq<(i64, i64)>)
    requires
        levels.len() <= 1_000_000,
        forall|i: int|
            0 <= i < levels.len() ==> -1_000_000_000 <= (#[trigger] levels[i]).1 <= 1_000_000_000,
    ensures
        book_side::snapshot_fits(levels),
{
    assert forall|k: int| 0 <= k <= levels.len() implies book_side::fits_i64(
        #[trigger] book_side::listed_total(levels.take(k)),
    ) by {
        let some = levels.take(k);
        assert forall|i: int| 0 <= i < some.len() implies -1_000_000_000 <= (#[trigger] some[i]).1
            <= 1_000_000_000 by {
            assert(some[i] == levels[i]);
        }
        lemma_listed_total_bound(some);
    }
}

proof fn lemma_listed_total_bound(levels: Seq<(i64, i64)>)
    requires
        forall|i: int|
            0 <= i < levels.len() ==> -1_000_000_000 <= (#[trigger] levels[i]).1 <= 1_000_000_000,
    ensures
        -1_000_000_000 * levels.len() <= book_side::listed_total(levels) <= 1_000_000_000
            * levels.len(),
    decreases levels.len(),
{
    if levels.len() > 0 {
        let rest = levels.drop_last();
        assert forall|i: int| 0 <= i < rest.len() implies -1_000_000_000 <= (#[trigger] rest[i]).1
            <= 1_000_000_000 by {
            assert(rest[i] == levels[i]);
        }
        lemma_listed_total_bound(rest);
        assert(levels[levels.len() - 1].1 <= 1_000_000_000);
    }
}

/// Deltas of ordinary size are taken.
pub proof fn law_ordinary_deltas_fit(side: BookSide, price: i64, delta: i64)
    requires
        -1_000_000_000 <= delta <= 1_000_000_000,
        -1_000_000_000_000_000 <= side.total_qty <= 1_000_000_000_000_000,
        forall|p: int|
            0 <= p < 100 ==> -1_000_000_000 <= #[trigger] side.quantities@[p] <= 1_000_000_000,
    ensures
        side.delta_fits(price, delta),
{
    if 1 <= price <= 99 {
        assert(-1_000_000_000 <= side.quantities@[price as int] <= 1_000_000_000);
    }
}

/// A delta adds its contracts at its price, stopping at 0, moves the total by what the level changed,
/// and leaves every other price alone. Prices outside 1 to 99 change nothing.
pub proof fn law_delta_changes_one_level(
    before: BookSide,
    after: BookSide,
    price: i64,
    delta: i64,
    p: int,
)
    requires
        before.delta_fits(price, delta),
        before.delta_applied(after, price, delta),
    ensures
        1 <= price <= 99 && before.quantities@[price as int] + delta >= 0
            ==> after.quantities@[price as int] == before.quantities@[price as int] + delta,
        1 <= price <= 99 && before.quantities@[price as int] + delta < 0
            ==> after.quantities@[price as int] == 0,
        1 <= price <= 99 ==> after.total_qty - before.total_qty == after.quantities@[price as int]
            - before.quantities@[price as int],
        0 <= p < 100 && p != price ==> after.quantities@[p] == before.quantities@[p],
        !(1 <= price <= 99) ==> after == before,
{
}

/// After a delta the best bid is the highest price with a positive quantity, 0 without one.
pub proof fn law_delta_best_bid(
    before: BookSide,
    after: BookSide,
    price: i64,
    delta: i64,
    p: int,
)
    requires
        before.wf(),
        before.delta_fits(price, delta),
        before.delta_applied(after, price, delta),
    ensures
        after.best_bid == 0 || (1 <= after.best_bid <= 99
            && after.quantities@[after.best_bid as int] > 0),
        1 <= p <= 99 && after.quantities@[p] > 0 ==> p <= after.best_bid,
{
    book_side::lemma_delta_keeps_wf(before, after, price, delta);
    law_best_bid_has_contracts(after);
}

/// The best bid below a price is the highest price under it with a positive quantity, 0 without one.
pub proof fn law_best_bid_below(side: BookSide, below: int, best: int, p: int)
    requires
        side.wf(),
        book_side::is_best_below(side.occupied, below, best),
    ensures
        best == 0 || (1 <= best <= 99 && best < below && side.quantities@[best] > 0),
        1 <= p <= 99 && p < below && side.quantities@[p] > 0 ==> p <= best,
{
    if exists|r: int| r < below && #[trigger] bits::has_bit(side.occupied, r) {
        assert(bits::has_bit(side.occupied, best));
    }
    if 1 <= p <= 99 && p < below && side.quantities@[p] > 0 {
        assert(bits::has_bit(side.occupied, p));
    }
}

/// The top levels are the best ones with their quantities, best first: as many as asked for, or every
/// price with a positive quantity where there are fewer.
pub proof fn law_top_levels(side: BookSide, n: int, i: int, j: int, p: int)
    requires
        side.wf(),
        0 <= n,
    ensures
        side.top_levels(n).len() <= n,
        0 <= i < side.top_levels(n).len() ==> {
            let level = side.top_levels(n)[i];
            1 <= level.0 <= 99 && level.1 == side.quantities@[level.0 as int] && level.1 > 0
        },
        0 <= i < j < side.top_levels(n).len() ==> side.top_levels(n)[i].0
            > side.top_levels(n)[j].0,
        1 <= p <= 99 && side.quantities@[p] > 0 ==> (exists|k: int|
            0 <= k < side.top_levels(n).len() && (#[trigger] side.top_levels(n)[k]).0 == p) || (
        side.top_levels(n).len() == n && forall|k: int|
            0 <= k < n ==> (#[trigger] side.top_levels(n)[k]).0 > p),
{
    law_levels_best_first(side);
    let all = side.levels();
    let top = side.top_levels(n);
    if 0 <= i < top.len() {
        assert(top[i] == all[i]);
        assert(bits::has_bit(side.occupied, all[i].0 as int));
    }
    if 0 <= i < j < top.len() {
        assert(all[i].0 > all[j].0);
    }
    if 1 <= p <= 99 && side.quantities@[p] > 0 {
        assert(bits::has_bit(side.occupied, p));
        let k = choose|k: int| 0 <= k < all.len() && (#[trigger] all[k]).0 == p;
        if k < top.len() {
            assert(top[k].0 == p);
        } else {
            assert forall|m: int| 0 <= m < n implies (#[trigger] top[m]).0 > p by {
                assert(all[m].0 > all[k].0);
            }
        }
    }
}

/// The quantity at the best bid is what stands there: positive where there is a best bid.
pub proof fn law_best_quantity(side: BookSide)
    requires
        side.wf(),
    ensures
        side.best_bid > 0 ==> side.best_qty() == side.quantities@[side.best_bid as int]
            && side.best_qty() > 0,
        side.best_bid <= 0 ==> side.best_qty() == 0,
{
    law_best_bid_has_contracts(side);
}

/// A NO bid and the YES ask that it offers make 100; without a NO bid there is no ask.
pub proof fn law_ask_mirrors_the_no_bid(book: OrderBook)
    ensures
        book.no_bids.best_bid > 0 ==> book.yes_ask() + book.no_bids.best_bid == 100,
        book.no_bids.best_bid <= 0 ==> book.yes_ask() == 0,
        book.yes_bids.best_bid > 0 && 0 < book.no_bids.best_bid < 100 ==> book.spread() == 100
            - book.yes_bids.best_bid - book.no_bids.best_bid,
        book.yes_bids.best_bid <= 0 || book.no_bids.best_bid <= 0 || book.no_bids.best_bid >= 100
            ==> book.spread() == i64::MAX,
        book.quoted() <==> book.yes_bids.best_bid > 0 && book.no_bids.best_bid > 0
            && book.yes_bids.best_bid + book.no_bids.best_bid < 100,
{
}

/// The top of the book is given exactly when both bids are there and together stay below 100, with
/// the quantities at the two best bids.
pub proof fn law_top_of_book(book: OrderBook)
    requires
        book.wf(),
    ensures
        book.top() is Some <==> book.yes_bids.best_bid > 0 && book.no_bids.best_bid > 0
            && book.yes_bids.best_bid + book.no_bids.best_bid < 100,
        book.top() matches Some(t) ==> {
            &&& t.bid == book.yes_bids.best_bid
            &&& t.ask + book.no_bids.best_bid == 100
            &&& t.bid_qty == book.yes_bids.quantities@[t.bid as int]
            &&& t.ask_qty == book.no_bids.quantities@[100 - t.ask]
        },
{
}

/// The quantities at the two best bids are compared as a ratio wherever there is a NO bid; with a YES
/// bid alone there is no ratio, and without bids nothing to compare.
pub proof fn law_imbalance(book: OrderBook)
    requires
        book.wf(),
    ensures
        book.no_bids.best_bid > 0 ==> book.balance() == (order_book::Imbalance::Ratio {
            bid_qty: if book.yes_bids.best_bid > 0 {
                book.yes_bids.quantities@[book.yes_bids.best_bid as int]
            } else {
                0
            },
            ask_qty: book.no_bids.quantities@[book.no_bids.best_bid as int],
        }),
        book.no_bids.best_bid <= 0 && book.yes_bids.best_bid > 0 ==> book.balance()
            == order_book::Imbalance::BidOnly,
        book.no_bids.best_bid <= 0 && book.yes_bids.best_bid <= 0 ==> book.balance()
            == order_book::Imbalance::Neither,
{
    law_best_quantity(book.yes_bids);
    law_best_quantity(book.no_bids);
}

/// Looking one cent deeper adds what stands there: on each side with a best bid, the level just
/// beyond the range, down to one cent. A range below 0 holds nothing, and one of 0 the best bids
/// alone.
pub proof fn law_depth_cent_by_cent(book: OrderBook, range: int)
    requires
        book.wf(),
    ensures
        range < 0 ==> book.depth(range) == 0,
        range >= -1 ==> book.depth(range + 1) - book.depth(range) == level_at(
            book.yes_bids,
            book.yes_bids.best_bid - range - 1,
        ) + level_at(book.no_bids, book.no_bids.best_bid - range - 1),
{
    lemma_side_depth_step(book.yes_bids, range);
    lemma_side_depth_step(book.no_bids, range);
}

/// What stands at a price of 1 or more on a side with a best bid.
pub open spec fn level_at(side: BookSide, price: int) -> int {
    if side.best_bid > 0 && price >= 1 {
        side.quantities@[price] as int
    } else {
        0
    }
}

proof fn lemma_side_depth_step(side: BookSide, range: int)
    requires
        side.wf(),
    ensures
        range < 0 ==> order_book::side_depth(side, range) == 0,
        range >= -1 ==> order_book::side_depth(side, range + 1) - order_book::side_depth(side, range)
            == level_at(side, side.best_bid - range - 1),
{
    let best = side.best_bid as int;
    if best > 0 && range >= -1 {
        let lo = best - range - 1;
        if lo >= 1 {
            lemma_sum_lower(side.quantities@, lo, best + 1);
        }
    }
}

proof fn lemma_sum_lower(q: Seq<i64>, lo: int, hi: int)
    requires
        lo < hi,
    ensures
        book_side::sum_between(q, lo, hi) == q[lo] + book_side::sum_between(q, lo + 1, hi),
    decreases hi - lo,
{
    if lo + 1 < hi {
        lemma_sum_lower(q, lo, hi - 1);
    } else {
        assert(book_side::sum_between(q, lo, lo) == 0);
    }
}

/// A delta that follows in number is taken on its own side alone, and the number moves on by one.
pub proof fn law_delta_stays_on_its_side(
    before: OrderBook,
    after: OrderBook,
    side: order_book::Side,
    price: i64,
    delta: i64,
    seq: u64,
)
    requires
        before.delta_applied(after, side, price, delta, seq),
    ensures
        after.seq == seq,
        after.initialized == before.initialized,
        side == order_book::Side::Yes ==> after.no_bids == before.no_bids
            && before.yes_bids.delta_applied(after.yes_bids, price, delta),
        side == order_book::Side::No ==> after.yes_bids == before.yes_bids
            && before.no_bids.delta_applied(after.no_bids, price, delta),
{
}

/// A snapshot fills each side from its own list.
pub proof fn law_snapshot_fills_both_sides(
    book: OrderBook,
    yes_levels: Seq<(i64, i64)>,
    no_levels: Seq<(i64, i64)>,
    seq: u64,
)
    requires
        book.is_snapshot(yes_levels, no_levels, seq),
    ensures
        book.yes_bids.is_snapshot(yes_levels),
        book.no_bids.is_snapshot(no_levels),
        book.seq == seq,
        book.initialized,
{
}

/// A fresh book holds nothing, is not quoted and waits for a snapshot.
pub proof fn law_fresh_book_is_empty(book: OrderBook, p: int)
    requires
        book.is_fresh(),
    ensures
        0 <= p < 100 ==> book.yes_bids.quantities@[p] == 0 && book.no_bids.quantities@[p] == 0,
        book.yes_bids.best_bid == 0,
        book.no_bids.best_bid == 0,
        book.yes_bids.total_qty == 0,
        book.no_bids.total_qty == 0,
        !book.quoted(),
        !book.initialized,
        book.seq == 0,
{
    let y = order_book::Side::Yes;
    let n = order_book::Side::No;
    assert(book.bids(y).best_bid == 0 && book.bids(n).best_bid == 0);
    assert(book.bids(y).total_qty == 0 && book.bids(n).total_qty == 0);
    if 0 <= p < 100 {
        assert(book.bids(y).quantities@[p] == 0);
        assert(book.bids(n).quantities@[p] == 0);
    }
}

/// A bid or an ask that has moved since the last look is reported once, with what it was and what it
/// is; at the first look nothing is.
pub proof fn law_moved_top_is_reported(old_bid: i64, old_ask: i64, bid: i64, ask: i64)
    ensures
        (old_bid != bid || old_ask != ask) ==> order_book::top_events(
            Some((old_bid as int, old_ask as int)),
            bid as int,
            ask as int,
        ) == seq![
            order_book::BookEvent::TopOfBookChanged { old_bid, old_ask, new_bid: bid, new_ask: ask },
        ],
        order_book::top_events(None, bid as int, ask as int).len() == 0,
{
}

/// The depth of an ordinary book can be added up: with quantities within a billion nothing overflows.
pub proof fn law_ordinary_depth_fits(book: OrderBook, range: int)
    requires
        book.wf(),
        -1_000_000_000 <= range <= 1_000_000_000,
        forall|p: int|
            0 <= p < 100 ==> -1_000_000_000 <= #[trigger] book.yes_bids.quantities@[p]
                <= 1_000_000_000,
        forall|p: int|
            0 <= p < 100 ==> -1_000_000_000 <= #[trigger] book.no_bids.quantities@[p]
                <= 1_000_000_000,
    ensures
        book.depth_fits(range),
{
    lemma_ordinary_side_depth(book.yes_bids, range, 0);
    lemma_ordinary_side_depth(
        book.no_bids,
        range,
        order_book::side_depth(book.yes_bids, range),
    );
}

proof fn lemma_ordinary_side_depth(side: BookSide, range: int, start: int)
    requires
        side.wf(),
        -1_000_000_000 <= range <= 1_000_000_000,
        -100_000_000_000 <= start <= 100_000_000_000,
        forall|p: int|
            0 <= p < 100 ==> -1_000_000_000 <= #[trigger] side.quantities@[p] <= 1_000_000_000,
    ensures
        order_book::side_depth_fits(side, range, start),
        -100_000_000_000 <= order_book::side_depth(side, range) <= 100_000_000_000,
{
    law_best_bid_has_contracts(side);
    if side.best_bid > 0 {
        let lo = order_book::depth_floor(side.best_bid as int, range);
        assert forall|p: int| lo <= p <= side.best_bid + 1 implies book_side::fits_i64(
            start + #[trigger] book_side::sum_between(side.quantities@, lo, p),
        ) by {
            lemma_sum_bound(side.quantities@, lo, p);
        }
        if lo <= side.best_bid + 1 {
            lemma_sum_bound(side.quantities@, lo, side.best_bid + 1);
        }
    }
}

proof fn lemma_sum_bound(q: Seq<i64>, lo: int, hi: int)
    requires
        0 <= lo <= hi <= 100,
        forall|p: int| 0 <= p < 100 ==> -1_000_000_000 <= #[trigger] q[p] <= 1_000_000_000,
    ensures
        -1_000_000_000 * (hi - lo) <= book_side::sum_between(q, lo, hi) <= 1_000_000_000 * (hi
            - lo),
    decreases hi - lo,
{
    if lo < hi {
        lemma_sum_bound(q, lo, hi - 1);
        assert(-1_000_000_000 <= q[hi - 1] <= 1_000_000_000);
    }
}

} // verus!
