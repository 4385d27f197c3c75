//! The order book of one market: YES bids, NO bids, and the top of the book they make.

use crate::book_side;
use crate::book_side::BookSide;
use crate::clock;
use std::time::Instant;
use vstd::prelude::*;

verus! {

/// The two contracts of a market. A pair of them pays 100 cents.
#[derive(Debug, Clone, Copy, PartialEq, Eq, Structural)]
pub enum Side {
    Yes,
    No,
}

/// The order book of one market.
#[derive(Debug)]
pub struct OrderBook {
    pub yes_bids: BookSide,
    pub no_bids: BookSide,
    /// When the book last changed.
    pub last_update: Instant,
    /// Sequence number of the last update.
    pub seq: u64,
    /// Whether a snapshot has come in.
    pub initialized: bool,
}

impl Clone for OrderBook {
    fn clone(&self) -> (copy: Self)
        ensures
            copy == *self,
    {
        OrderBook {
            yes_bids: self.yes_bids.clone(),
            no_bids: self.no_bids.clone(),
            last_update: self.last_update,
            seq: self.seq,
            initialized: self.initialized,
        }
    }
}

/// The quotes at the top of a book that is not crossed, with the quantities behind them.
#[derive(Debug, Clone, Copy, PartialEq, Eq, Structural)]
pub struct TopOfBook {
    pub bid: i64,
    pub ask: i64,
    pub bid_qty: i64,
    pub ask_qty: i64,
}

/// How the quantities at the two best bids compare.
#[derive(Debug, Clone, Copy, PartialEq, Eq, Structural)]
pub enum Imbalance {
    /// Both can be divided: `bid_qty / ask_qty`.
    Ratio { bid_qty: i64, ask_qty: i64 },
    /// Contracts are bid for on the YES side alone.
    BidOnly,
    /// No contracts on either side.
    Neither,
}

/// The lowest price that lies within `range` cents of the best bid.
pub open spec fn depth_floor(best: int, range: int) -> int {
    book_side::max_of(best - range, 1)
}

/// The quantity of one side within `range` cents of its best bid, 0 for an empty side.
pub open spec fn side_depth(side: BookSide, range: int) -> int {
    if side.best_bid > 0 {
        book_side::sum_between(
            side.quantities@,
            depth_floor(side.best_bid as int, range),
            side.best_bid + 1,
        )
    } else {
        0
    }
}

/// Whether the depth of `side` can be added up from `start` within `i64`, price by price upwards.
pub open spec fn side_depth_fits(side: BookSide, range: int, start: int) -> bool {
    side.best_bid > 0 ==> {
        let lo = depth_floor(side.best_bid as int, range);
        &&& book_side::fits_i64(side.best_bid - range)
        &&& lo <= side.best_bid ==> side.best_bid < book_side::MAX_PRICE
        &&& forall|p: int|
            lo <= p <= side.best_bid + 1 ==> book_side::fits_i64(
                start + #[trigger] book_side::sum_between(side.quantities@, lo, p),
            )
    }
}

impl OrderBook {
    /// Both sides are well formed.
    pub open spec fn wf(self) -> bool {
        self.yes_bids.wf() && self.no_bids.wf()
    }

    /// The bids of one contract.
    pub open spec fn bids(self, side: Side) -> BookSide {
        match side {
            Side::Yes => self.yes_bids,
            Side::No => self.no_bids,
        }
    }

    /// The best YES ask: 100 minus the best NO bid, 0 without NO bids.
    pub open spec fn yes_ask(self) -> int {
        if self.no_bids.best_bid > 0 {
            100 - self.no_bids.best_bid
        } else {
            0
        }
    }

    /// Whether the book has a bid and an ask that do not cross.
    pub open spec fn quoted(self) -> bool {
        self.yes_bids.best_bid > 0 && self.yes_ask() > 0 && self.yes_ask() > self.yes_bids.best_bid
    }

    /// The quantity at the best bid of one side.
    pub open spec fn top_qty(side: BookSide) -> i64 {
        side.best_qty()
    }

    /// The ask minus the bid, `i64::MAX` when one of them is missing.
    pub open spec fn spread(self) -> int {
        if self.yes_ask() > 0 && self.yes_bids.best_bid > 0 {
            self.yes_ask() - self.yes_bids.best_bid
        } else {
            i64::MAX as int
        }
    }

    /// The quantity on both sides within `range` cents of the best bids.
    pub open spec fn depth(self, range: int) -> int {
        side_depth(self.yes_bids, range) + side_depth(self.no_bids, range)
    }

    /// The quotes at the top of the book with the quantities behind them, where it is quoted.
    pub open spec fn top(self) -> Option<TopOfBook> {
        if self.quoted() {
            Some(
                TopOfBook {
                    bid: self.yes_bids.best_bid,
                    ask: self.yes_ask() as i64,
                    bid_qty: Self::top_qty(self.yes_bids),
                    ask_qty: Self::top_qty(self.no_bids),
                },
            )
        } else {
            None
        }
    }

    /// How the quantities at the two best bids compare.
    pub open spec fn balance(self) -> Imbalance {
        if Self::top_qty(self.no_bids) > 0 {
            Imbalance::Ratio {
                bid_qty: Self::top_qty(self.yes_bids),
                ask_qty: Self::top_qty(self.no_bids),
            }
        } else if Self::top_qty(self.yes_bids) > 0 {
            Imbalance::BidOnly
        } else {
            Imbalance::Neither
        }
    }

    /// Whether the depth within `range` cents can be added up within `i64`.
    pub open spec fn depth_fits(self, range: int) -> bool {
        &&& side_depth_fits(self.yes_bids, range, 0)
        &&& side_depth_fits(self.no_bids, range, side_depth(self.yes_bids, range))
    }

    /// A book without bids, waiting for its first snapshot.
    pub open spec fn is_fresh(self) -> bool {
        &&& forall|s: Side, p: int|
            0 <= p < book_side::MAX_PRICE ==> #[trigger] self.bids(s).quantities@[p] == 0
        &&& forall|s: Side| (#[trigger] self.bids(s)).occupied == 0
        &&& forall|s: Side| (#[trigger] self.bids(s)).best_bid == 0
        &&& forall|s: Side| (#[trigger] self.bids(s)).total_qty == 0
        &&& self.seq == 0
        &&& !self.initialized
    }

    /// The book holds exactly what a snapshot with number `seq` lists.
    pub open spec fn is_snapshot(
        self,
        yes_levels: Seq<(i64, i64)>,
        no_levels: Seq<(i64, i64)>,
        seq: u64,
    ) -> bool {
        &&& self.yes_bids.is_snapshot(yes_levels)
        &&& self.no_bids.is_snapshot(no_levels)
        &&& self.seq == seq
        &&& self.initialized
    }

    /// `after` is `self` with one delta of number `seq` applied to `side`.
    pub open spec fn delta_applied(
        self,
        after: OrderBook,
        side: Side,
        price: i64,
        delta: i64,
        seq: u64,
    ) -> bool {
        &&& match side {
            Side::Yes => self.yes_bids.delta_applied(after.yes_bids, price, delta)
                && after.no_bids == self.no_bids,
            Side::No => self.no_bids.delta_applied(after.no_bids, price, delta) && after.yes_bids
                == self.yes_bids,
        }
        &&& after.seq == seq
        &&& after.initialized == self.initialized
    }

    /// An empty book.
    pub fn new() -> (book: Self)
        ensures
            book.is_fresh(),
            book.wf(),
    {
        OrderBook {
            yes_bids: BookSide::new(),
            no_bids: BookSide::new(),
            last_update: clock::instant_now(),
            seq: 0,
            initialized: false,
        }
    }

    /// Replaces both sides by full lists of levels.
    pub fn apply_snapshot(
        &mut self,
        yes_levels: &[(i64, i64)],
        no_levels: &[(i64, i64)],
        seq: u64,
    )
        requires
            book_side::snapshot_fits(yes_levels@),
            book_side::snapshot_fits(no_levels@),
        ensures
            final(self).is_snapshot(yes_levels@, no_levels@, seq),
            final(self).wf(),
    {
        self.yes_bids.apply_snapshot(yes_levels);
        self.no_bids.apply_snapshot(no_levels);
        self.seq = seq;
        self.last_update = clock::instant_now();
        self.initialized = true;
    }

    /// Applies one delta. Returns `false`, with the book as it was, when `seq` is not the number that
    /// follows: an update was missed and the book can no longer be relied on.
    pub fn apply_delta(&mut self, side: Side, price: i64, delta: i64, seq: u64) -> (in_order: bool)
        requires
            old(self).seq < u64::MAX,
            seq == old(self).seq + 1 ==> old(self).bids(side).delta_fits(price, delta),
        ensures
            in_order == (seq == old(self).seq + 1),
            !in_order ==> *final(self) == *old(self),
            in_order ==> old(self).delta_applied(*final(self), side, price, delta, seq),
            old(self).wf() ==> final(self).wf(),
    {
        if seq != self.seq + 1 {
            return false;
        }
        match side {
            Side::Yes => self.yes_bids.apply_delta(price, delta),
            Side::No => self.no_bids.apply_delta(price, delta),
        }
        self.seq = seq;
        self.last_update = clock::instant_now();
        true
    }

    /// The best YES bid, 0 when there is none.
    pub fn best_yes_bid(&self) -> (bid: i64)
        ensures
            bid == self.yes_bids.best_bid,
    {
        self.yes_bids.best_bid
    }

    /// The best YES ask: a NO bid at `p` is an offer of YES at `100 - p`. 0 when there is none.
    pub fn best_yes_ask(&self) -> (ask: i64)
        ensures
            ask == self.yes_ask(),
    {
        if self.no_bids.best_bid > 0 {
            100 - self.no_bids.best_bid
        } else {
            0
        }
    }

    /// The ask minus the bid, `i64::MAX` when one of them is missing.
    pub fn yes_spread(&self) -> (spread: i64)
        ensures
            spread == self.spread(),
    {
        let ask: i64 = self.best_yes_ask();
        let bid: i64 = self.best_yes_bid();
        if ask > 0 && bid > 0 {
            ask - bid
        } else {
            i64::MAX
        }
    }

    /// The quotes that the midprice and the microprice are computed from; `None` when a side is empty
    /// or the book is crossed or locked.
    pub fn top_of_book(&self) -> (top: Option<TopOfBook>)
        ensures
            top == self.top(),
    {
        let bid: i64 = self.best_yes_bid();
        let ask: i64 = self.best_yes_ask();
        if bid > 0 && ask > 0 && ask > bid {
            Some(
                TopOfBook {
                    bid,
                    ask,
                    bid_qty: self.yes_bids.best_bid_qty(),
                    ask_qty: self.no_bids.best_bid_qty(),
                },
            )
        } else {
            None
        }
    }

    /// How the quantities at the two best bids compare.
    pub fn imbalance(&self) -> (imbalance: Imbalance)
        ensures
            imbalance == self.balance(),
    {
        let bid_qty: i64 = self.yes_bids.best_bid_qty();
        let ask_qty: i64 = self.no_bids.best_bid_qty();
        if ask_qty > 0 {
            Imbalance::Ratio { bid_qty, ask_qty }
        } else if bid_qty > 0 {
            Imbalance::BidOnly
        } else {
            Imbalance::Neither
        }
    }

    /// Whether `near_bbo_depth` takes this range: whether its sums stay within `i64`.
    pub fn can_sum_depth(&self, range: i64) -> (fits: bool)
        ensures
            fits == self.depth_fits(range as int),
    {
        match checked_side_depth(&self.yes_bids, range, 0) {
            Some(yes) => checked_side_depth(&self.no_bids, range, yes).is_some(),
            None => false,
        }
    }

    /// Total quantity on both sides within `range` cents of the best bids.
    pub fn near_bbo_depth(&self, range: i64) -> (depth: i64)
        requires
            self.depth_fits(range as int),
        ensures
            depth == self.depth(range as int),
    {
        let yes: i64 = add_side_depth(&self.yes_bids, range, 0);
        add_side_depth(&self.no_bids, range, yes)
    }
}

/// The depth of one side on top of `start`, `None` where a sum on the way leaves `i64` or the best
/// bid is no index.
fn checked_side_depth(side: &BookSide, range: i64, start: i64) -> (total: Option<i64>)
    ensures
        total is Some <==> side_depth_fits(*side, range as int, start as int),
        total matches Some(t) ==> t == start + side_depth(*side, range as int),
{
    let best: i64 = side.best_bid;
    if best <= 0 {
        return Some(start);
    }
    let floor: i64 = match best.checked_sub(range) {
        Some(floor) => floor,
        None => {
            return None;
        },
    };
    let lo: i64 = if floor > 1 {
        floor
    } else {
        1
    };
    if lo <= best && best >= 100 {
        return None;
    }
    let mut total: i64 = start;
    let mut p: i64 = lo;
    while p <= best
        invariant
            best == side.best_bid,
            best > 0,
            lo == depth_floor(best as int, range as int),
            lo <= p,
            p <= best + 1 || p == lo,
            1 <= lo,
            lo <= best ==> best < book_side::MAX_PRICE,
            total == start + book_side::sum_between(side.quantities@, lo as int, p as int),
            forall|r: int|
                lo <= r <= p ==> book_side::fits_i64(
                    start + #[trigger] book_side::sum_between(side.quantities@, lo as int, r),
                ),
        decreases best + 1 - p,
    {
        let ghost next = book_side::sum_between(side.quantities@, lo as int, p + 1);
        match total.checked_add(side.quantities[p as usize]) {
            Some(sum) => {
                total = sum;
            },
            None => {
                assert(!book_side::fits_i64(start + next));
                return None;
            },
        }
        p += 1;
    }
    Some(total)
}

/// Adds the depth of one side to `start`.
fn add_side_depth(side: &BookSide, range: i64, start: i64) -> (total: i64)
    requires
        side_depth_fits(*side, range as int, start as int),
    ensures
        total == start + side_depth(*side, range as int),
{
    let mut total: i64 = start;
    let best: i64 = side.best_bid;
    if best > 0 {
        let floor: i64 = best - range;
        let lo: i64 = if floor > 1 {
            floor
        } else {
            1
        };
        let mut p: i64 = lo;
        while p <= best
            invariant
                best == side.best_bid,
                best > 0,
                lo == depth_floor(best as int, range as int),
                lo <= p,
                p <= best + 1 || p == lo,
                1 <= lo,
                lo <= best ==> best < book_side::MAX_PRICE,
                side_depth_fits(*side, range as int, start as int),
                total == start + book_side::sum_between(side.quantities@, lo as int, p as int),
            decreases best + 1 - p,
        {
            assert(book_side::fits_i64(
                start + book_side::sum_between(side.quantities@, lo as int, p + 1),
            ));
            total = total + side.quantities[p as usize];
            p += 1;
        }
    }
    total
}

/// What a reader of the book is told about.
#[derive(Debug, Clone, Copy, PartialEq, Eq, Structural)]
pub enum BookEvent {
    Updated,
    SequenceGap { expected: u64, got: u64 },
    TopOfBookChanged { old_bid: i64, old_ask: i64, new_bid: i64, new_ask: i64 },
}

/// The events of a look that finds `bid` and `ask` where `last_seen` was seen before.
pub open spec fn top_events(last_seen: Option<(int, int)>, bid: int, ask: int) -> Seq<BookEvent> {
    match last_seen {
        None => seq![],
        Some((old_bid, old_ask)) => if old_bid == bid && old_ask == ask {
            seq![]
        } else {
            seq![
                BookEvent::TopOfBookChanged {
                    old_bid: old_bid as i64,
                    old_ask: old_ask as i64,
                    new_bid: bid as i64,
                    new_ask: ask as i64,
                },
            ]
        },
    }
}

/// Notices when the best bid or the best ask moves.
pub struct BookEventDetector {
    prev_yes_bid: i64,
    prev_yes_ask: i64,
    warmed_up: bool,
}

impl BookEventDetector {
    /// The bid and the ask seen last, `None` before the first look at a book.
    pub closed spec fn last_seen(&self) -> Option<(int, int)> {
        if self.warmed_up {
            Some((self.prev_yes_bid as int, self.prev_yes_ask as int))
        } else {
            None
        }
    }

    /// A detector that has seen no book.
    pub fn new() -> (detector: Self)
        ensures
            detector.last_seen() is None,
    {
        BookEventDetector { prev_yes_bid: 0, prev_yes_ask: 0, warmed_up: false }
    }

    /// Looks at the book: one event when the top differs from the one seen last, none otherwise or at
    /// the first look.
    pub fn detect(&mut self, book: &OrderBook) -> (events: Vec<BookEvent>)
        ensures
            final(self).last_seen() == Some((book.yes_bids.best_bid as int, book.yes_ask())),
            events@ == top_events(
                old(self).last_seen(),
                book.yes_bids.best_bid as int,
                book.yes_ask(),
            ),
    {
        let new_bid: i64 = book.best_yes_bid();
        let new_ask: i64 = book.best_yes_ask();
        if !self.warmed_up {
            self.prev_yes_bid = new_bid;
            self.prev_yes_ask = new_ask;
            self.warmed_up = true;
            return Vec::new();
        }
        let mut events: Vec<BookEvent> = Vec::new();
        if new_bid != self.prev_yes_bid || new_ask != self.prev_yes_ask {
            events.push(
                BookEvent::TopOfBookChanged {
                    old_bid: self.prev_yes_bid,
                    old_ask: self.prev_yes_ask,
                    new_bid,
                    new_ask,
                },
            );
        }
        self.prev_yes_bid = new_bid;
        self.prev_yes_ask = new_ask;
        events
    }
}

} // verus!
