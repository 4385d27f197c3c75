//! One side of the order book: the resting bids of one contract, by price in cents.

use crate::bits;
use vstd::prelude::*;

verus! {

/// Length of the price axis: prices are 1 to 99 cents, index 0 stays unused.
pub const MAX_PRICE: usize = 100;

/// The bids of one contract.
#[derive(Debug)]
pub struct BookSide {
    /// Contracts bid for, by price in cents.
    pub quantities: [i64; MAX_PRICE],
    /// Bit `p` is set exactly when `p` is a price with a positive quantity.
    pub occupied: u128,
    /// The highest occupied price, or 0 when there is none.
    pub best_bid: i64,
    /// Contracts over all prices.
    pub total_qty: i64,
}

impl Clone for BookSide {
    fn clone(&self) -> (copy: Self)
        ensures
            copy == *self,
    {
        BookSide {
            quantities: self.quantities,
            occupied: self.occupied,
            best_bid: self.best_bid,
            total_qty: self.total_qty,
        }
    }
}

/// Whether `v` is a value of `i64`.
pub open spec fn fits_i64(v: int) -> bool {
    i64::MIN <= v <= i64::MAX
}

/// The larger of two numbers.
pub open spec fn max_of(a: int, b: int) -> int {
    if a >= b {
        a
    } else {
        b
    }
}

/// The smaller of two numbers.
pub open spec fn min_of(a: int, b: int) -> int {
    if a <= b {
        a
    } else {
        b
    }
}

/// A price that can rest on the book.
pub open spec fn valid_price(price: int) -> bool {
    1 <= price <= 99
}

/// The best bid that an occupancy mask stands for: its highest bit, or 0 for the empty mask.
pub open spec fn best_of(mask: u128) -> int {
    if mask == 0 {
        0
    } else {
        choose|p: int| bits::is_highest_bit(mask, p)
    }
}

/// The sum of `q[lo]`, .., `q[hi - 1]`.
pub open spec fn sum_between(q: Seq<i64>, lo: int, hi: int) -> int
    decreases hi - lo,
{
    if hi <= lo {
        0
    } else {
        sum_between(q, lo, hi - 1) + q[hi - 1]
    }
}

/// The quantity that a list of levels leaves at `price`: that of the last level listed there, or 0
/// when none is.
pub open spec fn listed_qty(levels: Seq<(i64, i64)>, price: int) -> i64
    decreases levels.len(),
{
    if levels.len() == 0 {
        0
    } else if levels.last().0 == price {
        levels.last().1
    } else {
        listed_qty(levels.drop_last(), price)
    }
}

/// The sum of the quantities of all levels at valid prices.
pub open spec fn listed_total(levels: Seq<(i64, i64)>) -> int
    decreases levels.len(),
{
    if levels.len() == 0 {
        0
    } else if valid_price(levels.last().0 as int) {
        listed_total(levels.drop_last()) + levels.last().1
    } else {
        listed_total(levels.drop_last())
    }
}

/// Whether the running total over `levels` stays within `i64`.
pub open spec fn snapshot_fits(levels: Seq<(i64, i64)>) -> bool {
    forall|k: int| 0 <= k <= levels.len() ==> fits_i64(#[trigger] listed_total(levels.take(k)))
}

/// The quantity left at a level that held `old_qty` once `delta` has come in.
pub open spec fn qty_after(old_qty: i64, delta: i64) -> int {
    max_of(old_qty + delta, 0)
}

/// `best` is the highest price occupied below `below`, or 0 when none is.
pub open spec fn is_best_below(mask: u128, below: int, best: int) -> bool {
    if exists|p: int| p < below && #[trigger] bits::has_bit(mask, p) {
        &&& best < below
        &&& bits::has_bit(mask, best)
        &&& forall|p: int| best < p < below ==> !#[trigger] bits::has_bit(mask, p)
    } else {
        best == 0
    }
}

/// The occupied levels below price `p`, best first, with their quantities.
pub open spec fn levels_below(q: Seq<i64>, mask: u128, p: int) -> Seq<(i64, i64)>
    decreases p,
{
    if p <= 0 {
        seq![]
    } else if bits::has_bit(mask, p - 1) {
        seq![((p - 1) as i64, q[p - 1])] + levels_below(q, mask, p - 1)
    } else {
        levels_below(q, mask, p - 1)
    }
}

/// The highest bit of a mask is the best bid it stands for.
pub proof fn lemma_best_of(mask: u128, p: int)
    requires
        bits::is_highest_bit(mask, p),
    ensures
        best_of(mask) == p,
        mask != 0,
{
    bits::lemma_zero_has_no_bit(p);
    let r = choose|r: int| bits::is_highest_bit(mask, r);
    assert(bits::is_highest_bit(mask, r));
    if p < r {
        assert(!bits::has_bit(mask, r));
    }
    if r < p {
        assert(!bits::has_bit(mask, p));
    }
}

/// The best bid is occupied and nothing above it is; with nothing occupied it is 0.
pub proof fn lemma_best_of_is_best(mask: u128)
    ensures
        mask == 0 ==> best_of(mask) == 0 && forall|p: int| !bits::has_bit(mask, p),
        mask != 0 ==> bits::is_highest_bit(mask, best_of(mask)),
{
    if mask == 0 {
        assert forall|p: int| !bits::has_bit(mask, p) by {
            bits::lemma_zero_has_no_bit(p);
        }
    } else {
        bits::lemma_highest_by_halves(mask);
        lemma_best_of(mask, bits::highest_by_halves(mask));
    }
}

impl BookSide {
    /// What every operation keeps: the occupied prices are exactly those of 1 to 99 cents with a
    /// positive quantity, and the best bid is the highest of them.
    pub open spec fn wf(self) -> bool {
        &&& forall|p: int| #[trigger]
            bits::has_bit(self.occupied, p) <==> valid_price(p) && self.quantities@[p] > 0
        &&& self.best_bid == best_of(self.occupied)
    }

    /// Whether the running values of `apply_delta` stay within `i64`.
    pub open spec fn delta_fits(self, price: i64, delta: i64) -> bool {
        valid_price(price as int) ==> {
            let old_qty = self.quantities@[price as int];
            &&& fits_i64(old_qty + delta)
            &&& fits_i64(qty_after(old_qty, delta) - old_qty)
            &&& fits_i64(self.total_qty + qty_after(old_qty, delta) - old_qty)
        }
    }

    /// The side holds what the list of `levels` says, and nothing of what it held before.
    pub open spec fn is_snapshot(self, levels: Seq<(i64, i64)>) -> bool {
        &&& forall|p: int|
            0 <= p < MAX_PRICE ==> #[trigger] self.quantities@[p] == if valid_price(p) {
                listed_qty(levels, p)
            } else {
                0
            }
        &&& self.total_qty == listed_total(levels)
        &&& forall|p: int| #[trigger]
            bits::has_bit(self.occupied, p) <==> valid_price(p) && listed_qty(levels, p) > 0
        &&& self.best_bid == best_of(self.occupied)
    }

    /// `after` is `self` with `delta` contracts added at `price`.
    pub open spec fn delta_applied(self, after: BookSide, price: i64, delta: i64) -> bool {
        if !valid_price(price as int) {
            after == self
        } else {
            let old_qty = self.quantities@[price as int];
            let new_qty = qty_after(old_qty, delta);
            &&& after.quantities@ == self.quantities@.update(price as int, new_qty as i64)
            &&& after.total_qty == self.total_qty + new_qty - old_qty
            &&& forall|p: int| #[trigger]
                bits::has_bit(after.occupied, p) <==> if p == price {
                    new_qty > 0
                } else {
                    bits::has_bit(self.occupied, p)
                }
            &&& after.best_bid == if new_qty == 0 && price == self.best_bid {
                best_of(after.occupied)
            } else if new_qty > 0 && price > self.best_bid {
                price as int
            } else {
                self.best_bid as int
            }
        }
    }

    /// The quantity at the best bid, 0 when there is none.
    pub open spec fn best_qty(self) -> i64 {
        if valid_price(self.best_bid as int) {
            self.quantities@[self.best_bid as int]
        } else {
            0
        }
    }

    /// The best `n` levels with their quantities, best first; all of them when there are fewer.
    pub open spec fn top_levels(self, n: int) -> Seq<(i64, i64)> {
        self.levels().take(min_of(n, self.levels().len() as int))
    }

    /// All occupied levels with their quantities, best first.
    pub open spec fn levels(self) -> Seq<(i64, i64)> {
        levels_below(self.quantities@, self.occupied, MAX_PRICE as int)
    }

    /// An empty side.
    pub fn new() -> (side: Self)
        ensures
            side.wf(),
            forall|p: int| 0 <= p < MAX_PRICE ==> #[trigger] side.quantities@[p] == 0,
            side.occupied == 0,
            side.best_bid == 0,
            side.total_qty == 0,
    {
        proof {
            lemma_best_of_is_best(0);
        }
        BookSide { quantities: [0i64; MAX_PRICE], occupied: 0, best_bid: 0, total_qty: 0 }
    }

    fn recompute_best_bid(&mut self)
        ensures
            final(self).quantities == old(self).quantities,
            final(self).occupied == old(self).occupied,
            final(self).total_qty == old(self).total_qty,
            final(self).best_bid == best_of(old(self).occupied),
    {
        if self.occupied == 0 {
            self.best_bid = 0;
        } else {
            let p: u32 = bits::highest_bit(self.occupied);
            proof {
                lemma_best_of(self.occupied, p as int);
            }
            self.best_bid = p as i64;
        }
    }

    /// Whether `apply_snapshot` takes `levels`: whether their running total stays within `i64`.
    pub fn can_apply_snapshot(levels: &[(i64, i64)]) -> (fits: bool)
        ensures
            fits == snapshot_fits(levels@),
    {
        let mut total: i64 = 0;
        let mut i: usize = 0;
        assert(levels@.take(0) =~= seq![]);
        while i < levels.len()
            invariant
                i <= levels.len(),
                total == listed_total(levels@.take(i as int)),
                forall|k: int| 0 <= k <= i ==> fits_i64(#[trigger] listed_total(levels@.take(k))),
            decreases levels.len() - i,
        {
            let (price, qty): (i64, i64) = levels[i];
            assert(levels@.take(i + 1).drop_last() =~= levels@.take(i as int));
            if price >= 1 && price <= 99 {
                match total.checked_add(qty) {
                    Some(sum) => {
                        total = sum;
                    },
                    None => {
                        assert(!fits_i64(listed_total(levels@.take(i + 1))));
                        return false;
                    },
                }
            }
            i += 1;
        }
        true
    }

    /// Replaces the side by a full list of `(price, quantity)` levels. Levels at other prices than 1 to
    /// 99 are left out. Where a price is listed twice, the last quantity stays, and `total_qty` counts
    /// both.
    pub fn apply_snapshot(&mut self, levels: &[(i64, i64)])
        requires
            snapshot_fits(levels@),
        ensures
            final(self).is_snapshot(levels@),
            final(self).wf(),
    {
        self.quantities = [0i64; MAX_PRICE];
        self.occupied = 0;
        self.total_qty = 0;
        let mut i: usize = 0;
        proof {
            lemma_best_of_is_best(0);
            assert(levels@.take(0) =~= seq![]);
        }
        while i < levels.len()
            invariant
                i <= levels.len(),
                snapshot_fits(levels@),
                self.total_qty == listed_total(levels@.take(i as int)),
                forall|p: int|
                    0 <= p < MAX_PRICE ==> #[trigger] self.quantities@[p] == if valid_price(p) {
                        listed_qty(levels@.take(i as int), p)
                    } else {
                        0
                    },
                forall|p: int| #[trigger]
                    bits::has_bit(self.occupied, p) <==> valid_price(p) && listed_qty(
                        levels@.take(i as int),
                        p,
                    ) > 0,
            decreases levels.len() - i,
        {
            let (price, qty): (i64, i64) = levels[i];
            let ghost before = *self;
            let ghost seen = levels@.take(i as int);
            let ghost next = levels@.take(i + 1);
            assert(next.drop_last() =~= seen);
            assert(next.last() == (price, qty));
            assert(fits_i64(listed_total(next)));
            if price >= 1 && price <= 99 {
                self.quantities[price as usize] = qty;
                self.total_qty = self.total_qty + qty;
                if qty > 0 {
                    self.occupied = self.occupied | (1u128 << (price as u128));
                } else {
                    self.occupied = self.occupied & !(1u128 << (price as u128));
                }
            }
            proof {
                assert forall|p: int| #[trigger]
                    bits::has_bit(self.occupied, p) <==> valid_price(p) && listed_qty(next, p)
                        > 0 by {
                    assert(bits::has_bit(before.occupied, p) <==> valid_price(p) && listed_qty(
                        seen,
                        p,
                    ) > 0);
                    if valid_price(price as int) {
                        bits::lemma_set_bit(before.occupied, price as u128, p);
                        bits::lemma_clear_bit(before.occupied, price as u128, p);
                    }
                }
            }
            i += 1;
        }
        assert(levels@.take(i as int) =~= levels@);
        self.recompute_best_bid();
    }

    /// Whether `apply_delta` takes this delta: whether its running values stay within `i64`.
    pub fn can_apply_delta(&self, price: i64, delta: i64) -> (fits: bool)
        ensures
            fits == self.delta_fits(price, delta),
    {
        if price < 1 || price > 99 {
            return true;
        }
        let old_qty: i64 = self.quantities[price as usize];
        match old_qty.checked_add(delta) {
            Some(sum) => {
                let new_qty: i64 = if sum > 0 {
                    sum
                } else {
                    0
                };
                match new_qty.checked_sub(old_qty) {
                    Some(change) => self.total_qty.checked_add(change).is_some(),
                    None => false,
                }
            },
            None => false,
        }
    }

    /// Adds `delta` contracts at `price`, where the quantity stops at 0. Other prices than 1 to 99
    /// change nothing.
    pub fn apply_delta(&mut self, price: i64, delta: i64)
        requires
            old(self).delta_fits(price, delta),
        ensures
            old(self).delta_applied(*final(self), price, delta),
            old(self).wf() ==> final(self).wf(),
    {
        if price < 1 || price > 99 {
            return;
        }
        let idx: usize = price as usize;
        let old_qty: i64 = self.quantities[idx];
        let sum: i64 = old_qty + delta;
        let new_qty: i64 = if sum > 0 {
            sum
        } else {
            0
        };
        self.quantities[idx] = new_qty;
        self.total_qty = self.total_qty + (new_qty - old_qty);
        if new_qty > 0 {
            self.occupied = self.occupied | (1u128 << (idx as u128));
        } else {
            self.occupied = self.occupied & !(1u128 << (idx as u128));
        }
        proof {
            assert forall|p: int| #[trigger]
                bits::has_bit(self.occupied, p) <==> if p == price {
                    new_qty > 0
                } else {
                    bits::has_bit(old(self).occupied, p)
                } by {
                bits::lemma_set_bit(old(self).occupied, idx as u128, p);
                bits::lemma_clear_bit(old(self).occupied, idx as u128, p);
            }
        }
        if new_qty == 0 && price == self.best_bid {
            self.recompute_best_bid();
        } else if new_qty > 0 && price > self.best_bid {
            self.best_bid = price;
        }
        proof {
            if old(self).wf() {
                lemma_delta_keeps_wf(*old(self), *self, price, delta);
            }
        }
    }

    /// The quantity at the best bid, 0 when there is none.
    pub fn best_bid_qty(&self) -> (qty: i64)
        ensures
            qty == self.best_qty(),
    {
        if self.best_bid >= 1 && self.best_bid <= 99 {
            self.quantities[self.best_bid as usize]
        } else {
            0
        }
    }

    /// The highest occupied price strictly below `below_price`, 0 when there is none.
    pub fn best_bid_below(&self, below_price: i64) -> (best: i64)
        ensures
            is_best_below(self.occupied, below_price as int, best as int),
            below_price <= 1 ==> best == 0,
    {
        if below_price <= 1 {
            assert forall|p: int| p < below_price && #[trigger] bits::has_bit(
                self.occupied,
                p,
            ) implies p == 0 by {}
            return 0;
        }
        let mask: u128 = if below_price < 128 {
            let k: u128 = below_price as u128;
            proof {
                bits::lemma_keep_below(self.occupied, k, 0);
            }
            self.occupied & ((1u128 << k) - 1)
        } else {
            self.occupied
        };
        proof {
            assert forall|p: int| #[trigger]
                bits::has_bit(mask, p) <==> (p < below_price && bits::has_bit(
                    self.occupied,
                    p,
                )) by {
                if below_price < 128 {
                    bits::lemma_keep_below(self.occupied, below_price as u128, p);
                }
            }
        }
        if mask == 0 {
            proof {
                lemma_best_of_is_best(mask);
                assert forall|p: int| p < below_price implies !#[trigger] bits::has_bit(
                    self.occupied,
                    p,
                ) by {
                    assert(!bits::has_bit(mask, p));
                }
            }
            0
        } else {
            let p: u32 = bits::highest_bit(mask);
            proof {
                assert(bits::has_bit(mask, p as int));
                assert forall|r: int| p < r < below_price implies !#[trigger] bits::has_bit(
                    self.occupied,
                    r,
                ) by {
                    assert(!bits::has_bit(mask, r));
                }
            }
            p as i64
        }
    }

    /// The best `n` levels with their quantities, best first; all of them when there are fewer.
    pub fn top_n(&self, n: usize) -> (top: Vec<(i64, i64)>)
        requires
            n > 0 ==> forall|p: int| #[trigger]
                bits::has_bit(self.occupied, p) ==> p < MAX_PRICE,
        ensures
            top@ == self.top_levels(n as int),
    {
        let mut result: Vec<(i64, i64)> = Vec::with_capacity(
            if n < MAX_PRICE {
                n
            } else {
                MAX_PRICE
            },
        );
        let mut remaining: u128 = self.occupied;
        let mut i: usize = 0;
        let ghost mut bound: int = MAX_PRICE as int;
        let ghost q = self.quantities@;
        assert(seq![] + self.levels() =~= self.levels());
        while i < n && remaining != 0
            invariant
                i <= n,
                q == self.quantities@,
                result@.len() == i,
                bound <= MAX_PRICE,
                n > 0 ==> forall|p: int| #[trigger]
                    bits::has_bit(remaining, p) <==> (p < bound && bits::has_bit(self.occupied, p)),
                self.levels() == result@ + levels_below(q, self.occupied, bound),
            decreases n - i,
        {
            let p: u32 = bits::highest_bit(remaining);
            proof {
                assert(bits::has_bit(remaining, p as int));
                assert forall|r: int| p + 1 <= r < bound implies !#[trigger] bits::has_bit(
                    self.occupied,
                    r,
                ) by {
                    assert(!bits::has_bit(remaining, r));
                }
                lemma_levels_below_skip(q, self.occupied, p + 1, bound);
            }
            let ghost before = result@;
            let ghost mask = remaining;
            result.push((p as i64, self.quantities[p as usize]));
            remaining = remaining & !(1u128 << (p as u128));
            proof {
                assert forall|r: int| #[trigger]
                    bits::has_bit(remaining, r) <==> (r < p && bits::has_bit(self.occupied, r)) by {
                    bits::lemma_clear_bit(mask, p as u128, r);
                    assert(bits::has_bit(mask, r) <==> (r < bound && bits::has_bit(
                        self.occupied,
                        r,
                    )));
                }
                assert(before + levels_below(q, self.occupied, bound) =~= result@ + levels_below(
                    q,
                    self.occupied,
                    p as int,
                ));
                bound = p as int;
            }
            i += 1;
        }
        proof {
            if i < n {
                lemma_best_of_is_best(remaining);
                assert forall|r: int| 0 <= r < bound implies !#[trigger] bits::has_bit(
                    self.occupied,
                    r,
                ) by {
                    assert(!bits::has_bit(remaining, r));
                }
                if bound > 0 {
                    lemma_levels_below_skip(q, self.occupied, 0, bound);
                }
                assert(result@ + levels_below(q, self.occupied, bound) =~= result@);
            }
            assert(self.levels().take(min_of(n as int, self.levels().len() as int)) =~= result@);
        }
        result
    }
}

/// A stretch of the price axis with nothing occupied adds no level.
proof fn lemma_levels_below_skip(q: Seq<i64>, mask: u128, lo: int, hi: int)
    requires
        lo <= hi,
        forall|p: int| lo <= p < hi ==> !#[trigger] bits::has_bit(mask, p),
    ensures
        levels_below(q, mask, hi) == levels_below(q, mask, lo),
    decreases hi - lo,
{
    if lo < hi {
        assert(!bits::has_bit(mask, hi - 1));
        lemma_levels_below_skip(q, mask, lo, hi - 1);
        if hi <= 0 {
            assert(levels_below(q, mask, lo) =~= levels_below(q, mask, hi));
        }
    }
}

/// A delta keeps the side well formed: above all, the best bid stays the highest occupied price,
/// although it is looked for anew only when the level at the best bid runs out.
pub proof fn lemma_delta_keeps_wf(before: BookSide, after: BookSide, price: i64, delta: i64)
    requires
        before.wf(),
        before.delta_fits(price, delta),
        before.delta_applied(after, price, delta),
    ensures
        after.wf(),
{
    if valid_price(price as int) {
        let new_qty = qty_after(before.quantities@[price as int], delta);
        lemma_best_of_is_best(before.occupied);
        lemma_best_of_is_best(after.occupied);
        assert forall|p: int| #[trigger]
            bits::has_bit(after.occupied, p) <==> valid_price(p) && after.quantities@[p] > 0 by {
            assert(bits::has_bit(before.occupied, p) <==> valid_price(p) && before.quantities@[p]
                > 0);
        }
        assert(bits::has_bit(after.occupied, price as int) <==> new_qty > 0);
        if new_qty > 0 && price > before.best_bid {
            assert(bits::is_highest_bit(after.occupied, price as int));
            lemma_best_of(after.occupied, price as int);
        } else if !(new_qty == 0 && price == before.best_bid) {
            if before.occupied == 0 {
                assert(new_qty == 0);
                if after.occupied != 0 {
                    assert(bits::has_bit(after.occupied, best_of(after.occupied)));
                    assert(bits::has_bit(before.occupied, best_of(after.occupied)));
                }
            } else {
                let b = before.best_bid as int;
                assert(bits::has_bit(before.occupied, b));
                assert(bits::has_bit(after.occupied, b));
                assert(bits::is_highest_bit(after.occupied, b));
                lemma_best_of(after.occupied, b);
            }
        }
    }
}

} // verus!
