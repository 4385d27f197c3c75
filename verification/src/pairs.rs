//! Pairs of a YES and a NO contract: first in, first out, with the profit of each.

use crate::book_side;
use crate::order_book::Side;
use std::collections::VecDeque;
use vstd::prelude::*;

verus! {

/// The contracts that wait for a partner, and what the completed pairs have earned.
pub struct PairTracker {
    /// Cost of each unpaired YES contract, in cents, oldest first.
    pub yes_legs: VecDeque<i64>,
    /// Cost of each unpaired NO contract, in cents, oldest first.
    pub no_legs: VecDeque<i64>,
    pub pairs_completed: u64,
    /// Cents.
    pub realized_pnl: i64,
    /// Positive is long YES, negative is long NO.
    pub inventory: i64,
}

/// What a contract of `side` cost, given the price in YES terms.
pub open spec fn leg_cost(side: Side, yes_price: i64) -> int {
    match side {
        Side::Yes => yes_price as int,
        Side::No => 100 - yes_price,
    }
}

/// The pairs that `count` new contracts complete when `waiting` contracts wait on the other side.
pub open spec fn pairs_made(count: int, waiting: nat) -> int {
    book_side::min_of(book_side::max_of(count, 0), waiting as int)
}

/// What a new contract of cost `cost` earns with the first `k` waiting ones: each pair pays 100.
pub open spec fn pair_profit(cost: int, waiting: Seq<i64>, k: int) -> int
    decreases k,
{
    if k <= 0 {
        0
    } else {
        pair_profit(cost, waiting, k - 1) + (100 - (cost + waiting[k - 1]))
    }
}

/// `n` legs of the same cost.
pub open spec fn equal_legs(cost: int, n: int) -> Seq<i64> {
    Seq::new(n as nat, |i: int| cost as i64)
}

/// Whether pairing off stays within the integers it is counted in.
pub open spec fn pairing_fits(
    cost: int,
    count: int,
    waiting: Seq<i64>,
    pnl: i64,
    pairs: u64,
) -> bool {
    let k = pairs_made(count, waiting.len());
    &&& pairs + k <= u64::MAX
    &&& forall|i: int|
        0 <= i < k ==> {
            let leg = #[trigger] waiting[i];
            &&& book_side::fits_i64(cost + leg)
            &&& book_side::fits_i64(100 - (cost + leg))
        }
    &&& forall|i: int| 0 <= i <= k ==> book_side::fits_i64(
        pnl + #[trigger] pair_profit(cost, waiting, i),
    )
}

impl PairTracker {
    /// The unpaired contracts of one side.
    pub open spec fn legs(self, side: Side) -> Seq<i64> {
        match side {
            Side::Yes => self.yes_legs@,
            Side::No => self.no_legs@,
        }
    }

    /// The contracts on one side at most wait for a partner.
    pub open spec fn one_sided(self) -> bool {
        self.yes_legs@.len() == 0 || self.no_legs@.len() == 0
    }

    /// The inventory that the fill itself leads to.
    pub open spec fn counted_inventory(self, side: Side, count: i64) -> int {
        match side {
            Side::Yes => self.inventory + count,
            Side::No => self.inventory - count,
        }
    }

    /// Whether a fill stays within the integers it is counted in.
    pub open spec fn fill_fits(self, side: Side, yes_price: i64, count: i64) -> bool {
        &&& book_side::fits_i64(self.counted_inventory(side, count))
        &&& count > 0 ==> book_side::fits_i64(leg_cost(side, yes_price))
        &&& pairing_fits(
            leg_cost(side, yes_price),
            count as int,
            self.legs(opposite(side)),
            self.realized_pnl,
            self.pairs_completed,
        )
    }

    /// `after` is `self` with `count` contracts of `side` filled and the position reported as
    /// `post_position`.
    pub open spec fn fill_applied(
        self,
        after: PairTracker,
        side: Side,
        yes_price: i64,
        count: i64,
        post_position: i64,
    ) -> bool {
        let cost = leg_cost(side, yes_price);
        let waiting = self.legs(opposite(side));
        let k = pairs_made(count as int, waiting.len());
        let left = book_side::max_of(count as int, 0) - k;
        &&& after.inventory == post_position
        &&& after.pairs_completed == self.pairs_completed + k
        &&& after.realized_pnl == self.realized_pnl + pair_profit(cost, waiting, k)
        &&& after.legs(opposite(side)) == waiting.skip(k)
        &&& after.legs(side) == self.legs(side) + equal_legs(cost, left)
    }

    /// A tracker without legs.
    pub fn new(starting_inventory: i64) -> (pairs: Self)
        ensures
            pairs.yes_legs@.len() == 0,
            pairs.no_legs@.len() == 0,
            pairs.pairs_completed == 0,
            pairs.realized_pnl == 0,
            pairs.inventory == starting_inventory,
    {
        PairTracker {
            yes_legs: VecDeque::new(),
            no_legs: VecDeque::new(),
            pairs_completed: 0,
            realized_pnl: 0,
            inventory: starting_inventory,
        }
    }

    /// Whether `record_fill` takes this fill.
    pub fn can_record_fill(&self, side: Side, yes_price: i64, count: i64) -> (fits: bool)
        ensures
            fits == self.fill_fits(side, yes_price, count),
    {
        let counted: Option<i64> = match side {
            Side::Yes => self.inventory.checked_add(count),
            Side::No => self.inventory.checked_sub(count),
        };
        if counted.is_none() {
            return false;
        }
        if count <= 0 {
            return true;
        }
        let cost: i64 = match side {
            Side::Yes => yes_price,
            Side::No => match 100i64.checked_sub(yes_price) {
                Some(cost) => cost,
                None => {
                    return false;
                },
            },
        };
        match side {
            Side::Yes => can_pair_off(
                &self.no_legs,
                cost,
                count,
                self.realized_pnl,
                self.pairs_completed,
            ),
            Side::No => can_pair_off(
                &self.yes_legs,
                cost,
                count,
                self.realized_pnl,
                self.pairs_completed,
            ),
        }
    }

    /// Counts a fill of `count` contracts of `side` at a price in YES terms. Each contract completes
    /// a pair with the oldest one waiting on the other side, or waits itself. The inventory becomes
    /// the position that the exchange reports.
    pub fn record_fill(&mut self, side: Side, yes_price: i64, count: i64, post_position: i64)
        requires
            old(self).fill_fits(side, yes_price, count),
        ensures
            old(self).fill_applied(*final(self), side, yes_price, count, post_position),
            old(self).one_sided() ==> final(self).one_sided(),
    {
        self.inventory = post_position;
        if count > 0 {
            match side {
                Side::Yes => {
                    pair_off(
                        &mut self.no_legs,
                        &mut self.yes_legs,
                        yes_price,
                        count,
                        &mut self.realized_pnl,
                        &mut self.pairs_completed,
                    );
                },
                Side::No => {
                    pair_off(
                        &mut self.yes_legs,
                        &mut self.no_legs,
                        100 - yes_price,
                        count,
                        &mut self.realized_pnl,
                        &mut self.pairs_completed,
                    );
                },
            }
        } else {
            proof {
                let cost = leg_cost(side, yes_price);
                assert(self.legs(side) =~= old(self).legs(side) + equal_legs(cost, 0));
                assert(self.legs(opposite(side)) =~= old(self).legs(opposite(side)).skip(0));
            }
        }
    }

    /// The inventory that the fill itself leads to, where the reported position differs from it.
    pub fn drift(&self, side: Side, count: i64, post_position: i64) -> (counted: Option<i64>)
        requires
            book_side::fits_i64(self.counted_inventory(side, count)),
        ensures
            counted is Some <==> self.counted_inventory(side, count) != post_position,
            counted matches Some(n) ==> n == self.counted_inventory(side, count),
    {
        let counted: i64 = match side {
            Side::Yes => self.inventory + count,
            Side::No => self.inventory - count,
        };
        if counted != post_position {
            Some(counted)
        } else {
            None
        }
    }

    /// Whether a contract waits for a partner.
    pub fn has_unpaired(&self) -> (unpaired: bool)
        ensures
            unpaired == (self.yes_legs@.len() > 0 || self.no_legs@.len() > 0),
    {
        self.yes_legs.len() > 0 || self.no_legs.len() > 0
    }
}

/// The other contract.
pub open spec fn opposite(side: Side) -> Side {
    match side {
        Side::Yes => Side::No,
        Side::No => Side::Yes,
    }
}

/// Whether `pair_off` takes these arguments.
fn can_pair_off(waiting: &VecDeque<i64>, cost: i64, count: i64, pnl: i64, pairs: u64) -> (fits:
    bool)
    requires
        count > 0,
    ensures
        fits == pairing_fits(cost as int, count as int, waiting@, pnl, pairs),
{
    let mut total: i64 = pnl;
    let mut i: usize = 0;
    let mut left: i64 = count;
    let mut made: u64 = pairs;
    let ghost k = pairs_made(count as int, waiting@.len());
    while left > 0 && i < waiting.len()
        invariant
            count > 0,
            k == pairs_made(count as int, waiting@.len()),
            0 <= i <= k,
            left == count - i,
            made == pairs + i,
            total == pnl + pair_profit(cost as int, waiting@, i as int),
            forall|j: int|
                0 <= j < i ==> {
                    let leg = #[trigger] waiting@[j];
                    &&& book_side::fits_i64(cost + leg)
                    &&& book_side::fits_i64(100 - (cost + leg))
                },
            forall|j: int| 0 <= j <= i ==> book_side::fits_i64(
                pnl + #[trigger] pair_profit(cost as int, waiting@, j),
            ),
        decreases left,
    {
        let leg: i64 = waiting[i];
        assert(waiting@[i as int] == leg);
        let profit: i64 = match cost.checked_add(leg) {
            Some(sum) => match 100i64.checked_sub(sum) {
                Some(profit) => profit,
                None => {
                    return false;
                },
            },
            None => {
                return false;
            },
        };
        match total.checked_add(profit) {
            Some(sum) => {
                total = sum;
            },
            None => {
                assert(!book_side::fits_i64(pnl + pair_profit(cost as int, waiting@, i + 1)));
                return false;
            },
        }
        if made == u64::MAX {
            return false;
        }
        made += 1;
        left -= 1;
        i += 1;
    }
    true
}

/// Pairs `count` contracts of cost `cost` with the oldest of `waiting`; those left over join `own`.
fn pair_off(
    waiting: &mut VecDeque<i64>,
    own: &mut VecDeque<i64>,
    cost: i64,
    count: i64,
    pnl: &mut i64,
    pairs: &mut u64,
)
    requires
        count > 0,
        pairing_fits(cost as int, count as int, old(waiting)@, *old(pnl), *old(pairs)),
    ensures
        ({
            let k = pairs_made(count as int, old(waiting)@.len());
            &&& final(waiting)@ == old(waiting)@.skip(k)
            &&& final(own)@ == old(own)@ + equal_legs(cost as int, count - k)
            &&& *final(pnl) == *old(pnl) + pair_profit(cost as int, old(waiting)@, k)
            &&& *final(pairs) == *old(pairs) + k
        }),
{
    let mut left: i64 = count;
    let ghost legs = waiting@;
    let ghost k = pairs_made(count as int, legs.len());
    let ghost mut made: int = 0;
    proof {
        assert(legs.skip(0) =~= legs);
        assert(own@ + equal_legs(cost as int, 0) =~= own@);
    }
    while left > 0
        invariant
            0 <= left <= count,
            legs == old(waiting)@,
            k == pairs_made(count as int, legs.len()),
            pairing_fits(cost as int, count as int, legs, *old(pnl), *old(pairs)),
            0 <= made <= k,
            made <= count - left,
            made < k ==> made == count - left,
            waiting@ == legs.skip(made),
            own@ == old(own)@ + equal_legs(cost as int, count - left - made),
            *pnl == *old(pnl) + pair_profit(cost as int, legs, made),
            *pairs == *old(pairs) + made,
        decreases left,
    {
        match waiting.pop_front() {
            Some(leg) => {
                proof {
                    assert(leg == legs[made]);
                    assert(made < k);
                    assert(book_side::fits_i64(*old(pnl) + pair_profit(
                        cost as int,
                        legs,
                        made + 1,
                    )));
                    assert(legs.skip(made).subrange(1, legs.len() - made) =~= legs.skip(made + 1));
                }
                let profit: i64 = 100 - (cost + leg);
                *pnl = *pnl + profit;
                *pairs = *pairs + 1;
                proof {
                    made = made + 1;
                }
            },
            None => {
                assert(made == k);
                own.push_back(cost);
                assert(own@ =~= old(own)@ + equal_legs(cost as int, count - left + 1 - made));
            },
        }
        left -= 1;
    }
}

} // verus!
