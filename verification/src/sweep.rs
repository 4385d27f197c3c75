//! Sweep detection: heavy one-sided taker volume while the bid on the other side falls.

use crate::book_side;
use crate::clock;
use crate::order_book::Side;
use std::time::Instant;
use vstd::prelude::*;

verus! {

/// A bid that has fallen by this many cents since the last check has moved.
pub const SWEEP_DROP_CENTS: i64 = 3;

/// Rolling record of trades, and the best bids seen last.
pub struct SweepDetector {
    /// `(nanoseconds on the detector's clock, taker bought YES, contracts)`.
    pub trades: Vec<(u128, bool, i64)>,
    /// How long a trade counts.
    pub window_nanos: u128,
    /// Taker volume above this is heavy.
    pub threshold: i64,
    pub prev_yes_bid: i64,
    pub prev_no_bid: i64,
    /// Zero of the detector's clock.
    pub started: Instant,
}

/// The contracts that takers bought on one side.
pub open spec fn taker_volume(trades: Seq<(u128, bool, i64)>, yes: bool) -> int
    decreases trades.len(),
{
    if trades.len() == 0 {
        0
    } else {
        taker_volume(trades.drop_last(), yes) + if trades.last().1 == yes {
            trades.last().2 as int
        } else {
            0
        }
    }
}

/// The trades no older than `window` at `now`.
pub open spec fn within_window(trades: Seq<(u128, bool, i64)>, now: u128, window: u128) -> Seq<
    (u128, bool, i64),
> {
    trades.filter(|t: (u128, bool, i64)| t.0 >= now - window)
}

/// The side to pull quotes on: YES when takers buy NO heavily and the YES bid falls, NO when takers
/// buy YES heavily and the NO bid falls; YES when both hold.
pub open spec fn swept_side(
    yes_volume: int,
    no_volume: int,
    threshold: int,
    yes_drop: int,
    no_drop: int,
) -> Option<Side> {
    if no_volume > threshold && yes_drop >= SWEEP_DROP_CENTS {
        Some(Side::Yes)
    } else if yes_volume > threshold && no_drop >= SWEEP_DROP_CENTS {
        Some(Side::No)
    } else {
        None
    }
}

impl SweepDetector {
    /// What a check finds at `now`: only the trades of the last window count.
    pub open spec fn finding_at(self, now: u128, yes_bid: i64, no_bid: i64) -> Option<Side> {
        let recent = within_window(self.trades@, now, self.window_nanos);
        swept_side(
            taker_volume(recent, true),
            taker_volume(recent, false),
            self.threshold as int,
            self.prev_yes_bid - yes_bid,
            self.prev_no_bid - no_bid,
        )
    }

    /// The settings are those of `other`.
    pub open spec fn same_settings(self, other: SweepDetector) -> bool {
        &&& self.window_nanos == other.window_nanos
        &&& self.threshold == other.threshold
        &&& self.started == other.started
    }

    /// `after` is `self` with one trade taken in at `now`.
    pub open spec fn trade_recorded(
        self,
        after: SweepDetector,
        now: u128,
        taker_side_yes: bool,
        count: i64,
    ) -> bool {
        &&& after.trades@ == self.trades_with(now, taker_side_yes, count)
        &&& after.prev_yes_bid == self.prev_yes_bid
        &&& after.prev_no_bid == self.prev_no_bid
        &&& after.same_settings(self)
    }

    /// `after` is `self` with first bids taken in where none was seen before.
    pub open spec fn bbo_recorded(self, after: SweepDetector, yes_bid: i64, no_bid: i64) -> bool {
        &&& after.trades@ == self.trades@
        &&& after.prev_yes_bid == if self.prev_yes_bid == 0 {
            yes_bid
        } else {
            self.prev_yes_bid
        }
        &&& after.prev_no_bid == if self.prev_no_bid == 0 {
            no_bid
        } else {
            self.prev_no_bid
        }
        &&& after.same_settings(self)
    }

    /// `after` is `self` after a check at `now`: the bids are remembered, and a sweep starts the record
    /// anew.
    pub open spec fn checked(self, after: SweepDetector, now: u128, yes_bid: i64, no_bid: i64) -> bool {
        &&& after.trades@ == if self.finding_at(now, yes_bid, no_bid) is Some {
            seq![]
        } else {
            self.trades@
        }
        &&& after.prev_yes_bid == yes_bid
        &&& after.prev_no_bid == no_bid
        &&& after.same_settings(self)
    }

    /// The record of trades once one is taken in at `now`.
    pub open spec fn trades_with(self, now: u128, taker_side_yes: bool, count: i64) -> Seq<
        (u128, bool, i64),
    > {
        within_window(self.trades@.push((now, taker_side_yes, count)), now, self.window_nanos)
    }

    /// What a check finds right after a trade is taken in at `now`.
    pub open spec fn finding_with(
        self,
        now: u128,
        taker_side_yes: bool,
        count: i64,
        yes_bid: i64,
        no_bid: i64,
    ) -> Option<Side> {
        let trades = self.trades_with(now, taker_side_yes, count);
        swept_side(
            taker_volume(trades, true),
            taker_volume(trades, false),
            self.threshold as int,
            self.prev_yes_bid - yes_bid,
            self.prev_no_bid - no_bid,
        )
    }

    /// A detector without trades.
    pub fn new(window_ms: u64, threshold: i64) -> (detector: Self)
        ensures
            detector.trades@.len() == 0,
            detector.window_nanos == window_ms * 1_000_000,
            detector.threshold == threshold,
            detector.prev_yes_bid == 0,
            detector.prev_no_bid == 0,
    {
        SweepDetector {
            trades: Vec::with_capacity(256),
            window_nanos: window_ms as u128 * 1_000_000,
            threshold,
            prev_yes_bid: 0,
            prev_no_bid: 0,
            started: clock::instant_now(),
        }
    }

    /// Takes a trade in at the time of the call, and drops the trades that have left the window.
    pub fn record_trade(&mut self, taker_side_yes: bool, count: i64)
        ensures
            exists|now: u128| #[trigger]
                old(self).trade_recorded(*final(self), now, taker_side_yes, count),
    {
        let now: u128 = clock::elapsed_nanos(&self.started);
        self.record_trade_at(now, taker_side_yes, count);
    }

    /// Takes a trade in at `now`, and drops the trades that have left the window.
    pub fn record_trade_at(&mut self, now: u128, taker_side_yes: bool, count: i64)
        ensures
            old(self).trade_recorded(*final(self), now, taker_side_yes, count),
    {
        self.trades.push((now, taker_side_yes, count));
        let cutoff: u128 = now.saturating_sub(self.window_nanos);
        let mut kept: Vec<(u128, bool, i64)> = Vec::new();
        let mut i: usize = 0;
        let ghost all = self.trades@;
        proof {
            reveal(Seq::filter);
            assert(all.take(0) =~= seq![]);
        }
        while i < self.trades.len()
            invariant
                all == self.trades@,
                i <= all.len(),
                self.prev_yes_bid == old(self).prev_yes_bid,
                self.prev_no_bid == old(self).prev_no_bid,
                self.same_settings(*old(self)),
                cutoff == book_side::max_of(now - self.window_nanos, 0),
                kept@ == within_window(all.take(i as int), now, self.window_nanos),
            decreases all.len() - i,
        {
            proof {
                reveal(Seq::filter);
                assert(all.take(i + 1).drop_last() =~= all.take(i as int));
            }
            if self.trades[i].0 >= cutoff {
                kept.push(self.trades[i]);
            }
            i += 1;
        }
        assert(all.take(i as int) =~= all);
        self.trades = kept;
    }

    /// Takes in the best bids as the ones to measure from, where none was seen before.
    pub fn record_bbo(&mut self, yes_bid: i64, no_bid: i64)
        ensures
            old(self).bbo_recorded(*final(self), yes_bid, no_bid),
    {
        if self.prev_yes_bid == 0 {
            self.prev_yes_bid = yes_bid;
        }
        if self.prev_no_bid == 0 {
            self.prev_no_bid = no_bid;
        }
    }

    /// Looks for a sweep at the time of the call, given the best bids now. Gives the side to pull
    /// quotes on, if any: YES when someone sells YES aggressively, NO when someone buys YES
    /// aggressively. Only the trades of the last window count. The bids are remembered for the next
    /// check, and a sweep starts the record of trades anew.
    pub fn check(&mut self, yes_bid: i64, no_bid: i64) -> (pull: Option<Side>)
        ensures
            exists|now: u128|
                pull == old(self).finding_at(now, yes_bid, no_bid) && #[trigger] old(self).checked(
                    *final(self),
                    now,
                    yes_bid,
                    no_bid,
                ),
    {
        let now: u128 = clock::elapsed_nanos(&self.started);
        let pull: Option<Side> = self.check_at(now, yes_bid, no_bid);
        assert(old(self).checked(*self, now, yes_bid, no_bid));
        pull
    }

    /// Looks for a sweep at `now`, given the best bids then.
    pub fn check_at(&mut self, now: u128, yes_bid: i64, no_bid: i64) -> (pull: Option<Side>)
        ensures
            pull == old(self).finding_at(now, yes_bid, no_bid),
            old(self).checked(*final(self), now, yes_bid, no_bid),
    {
        let cutoff: u128 = now.saturating_sub(self.window_nanos);
        let mut yes_volume: i128 = 0;
        let mut no_volume: i128 = 0;
        let mut i: usize = 0;
        let ghost trades = self.trades@;
        proof {
            reveal(Seq::filter);
            assert(trades.take(0) =~= seq![]);
        }
        while i < self.trades.len()
            invariant
                *self == *old(self),
                trades == self.trades@,
                i <= trades.len(),
                cutoff == book_side::max_of(now - self.window_nanos, 0),
                -(i * 0x8000_0000_0000_0000) <= yes_volume <= i * 0x8000_0000_0000_0000,
                -(i * 0x8000_0000_0000_0000) <= no_volume <= i * 0x8000_0000_0000_0000,
                yes_volume == taker_volume(
                    within_window(trades.take(i as int), now, self.window_nanos),
                    true,
                ),
                no_volume == taker_volume(
                    within_window(trades.take(i as int), now, self.window_nanos),
                    false,
                ),
            decreases trades.len() - i,
        {
            let (time, is_yes, count): (u128, bool, i64) = self.trades[i];
            let ghost seen = within_window(trades.take(i as int), now, self.window_nanos);
            proof {
                reveal(Seq::filter);
                assert(trades.take(i + 1).drop_last() =~= trades.take(i as int));
                assert(seen.push(trades[i as int]).drop_last() =~= seen);
            }
            if time >= cutoff {
                if is_yes {
                    yes_volume = yes_volume + count as i128;
                } else {
                    no_volume = no_volume + count as i128;
                }
            }
            i += 1;
        }
        assert(trades.take(i as int) =~= trades);
        let yes_drop: i128 = self.prev_yes_bid as i128 - yes_bid as i128;
        let no_drop: i128 = self.prev_no_bid as i128 - no_bid as i128;
        self.prev_yes_bid = yes_bid;
        self.prev_no_bid = no_bid;
        if no_volume > self.threshold as i128 && yes_drop >= SWEEP_DROP_CENTS as i128 {
            self.trades.clear();
            return Some(Side::Yes);
        }
        if yes_volume > self.threshold as i128 && no_drop >= SWEEP_DROP_CENTS as i128 {
            self.trades.clear();
            return Some(Side::No);
        }
        None
    }
}

/// Looking at a window twice sees no less.
pub proof fn lemma_window_of_window(trades: Seq<(u128, bool, i64)>, now: u128, window: u128)
    ensures
        within_window(within_window(trades, now, window), now, window) == within_window(
            trades,
            now,
            window,
        ),
    decreases trades.len(),
{
    reveal(Seq::filter);
    if trades.len() > 0 {
        let rest = trades.drop_last();
        lemma_window_of_window(rest, now, window);
        let seen = within_window(rest, now, window);
        assert(seen.push(trades.last()).drop_last() =~= seen);
    }
}

/// A window that every trade has left is empty.
proof fn lemma_empty_window(trades: Seq<(u128, bool, i64)>, now: u128, window: u128)
    requires
        forall|i: int| 0 <= i < trades.len() ==> now - (#[trigger] trades[i]).0 > window,
    ensures
        within_window(trades, now, window).len() == 0,
    decreases trades.len(),
{
    reveal(Seq::filter);
    if trades.len() > 0 {
        let rest = trades.drop_last();
        assert forall|i: int| 0 <= i < rest.len() implies now - (#[trigger] rest[i]).0
            > window by {
            assert(rest[i] == trades[i]);
        }
        lemma_empty_window(rest, now, window);
        assert(now - trades[trades.len() - 1].0 > window);
    }
}

/// A trade just taken in is in the record, and every trade in the record is no older than the window.
pub proof fn law_record_holds_the_window(
    before: SweepDetector,
    after: SweepDetector,
    now: u128,
    taker_side_yes: bool,
    count: i64,
)
    requires
        before.trade_recorded(after, now, taker_side_yes, count),
    ensures
        after.trades@.len() > 0,
        after.trades@.last() == (now, taker_side_yes, count),
        forall|i: int|
            0 <= i < after.trades@.len() ==> now - (#[trigger] after.trades@[i]).0
                <= before.window_nanos,
        forall|i: int|
            0 <= i < before.trades@.len() && now - (#[trigger] before.trades@[i]).0
                <= before.window_nanos ==> after.trades@.contains(before.trades@[i]),
{
    let all = before.trades@.push((now, taker_side_yes, count));
    let recent = |t: (u128, bool, i64)| t.0 >= now - before.window_nanos;
    assert(after.trades@ == all.filter(recent));
    broadcast use vstd::seq_lib::group_filter_ensures;

    assert(all.filter(recent).last() == all.last() && all.filter(recent).len() > 0) by {
        reveal(Seq::filter);
    }
    assert forall|i: int|
        0 <= i < before.trades@.len() && now - (#[trigger] before.trades@[i]).0
            <= before.window_nanos implies after.trades@.contains(before.trades@[i]) by {
        assert(all[i] == before.trades@[i]);
        assert(recent(all[i]));
    }
}

/// A sweep is reported once: right after one, before another trade comes in, no bids give another.
pub proof fn law_sweep_is_reported_once(
    before: SweepDetector,
    after: SweepDetector,
    now: u128,
    yes_bid: i64,
    no_bid: i64,
    next_now: u128,
    next_yes_bid: i64,
    next_no_bid: i64,
)
    requires
        before.threshold >= 0,
        before.finding_at(now, yes_bid, no_bid) is Some,
        before.checked(after, now, yes_bid, no_bid),
    ensures
        after.finding_at(next_now, next_yes_bid, next_no_bid) is None,
{
    lemma_empty_window(after.trades@, next_now, after.window_nanos);
}

/// Trades that have left the window are no sweep, however many contracts they were and however far
/// the bids fall.
pub proof fn law_old_trades_are_no_sweep(
    detector: SweepDetector,
    now: u128,
    yes_bid: i64,
    no_bid: i64,
)
    requires
        detector.threshold >= 0,
        forall|i: int|
            0 <= i < detector.trades@.len() ==> now - (#[trigger] detector.trades@[i]).0
                > detector.window_nanos,
    ensures
        detector.finding_at(now, yes_bid, no_bid) is None,
{
    lemma_empty_window(detector.trades@, now, detector.window_nanos);
}

/// Without heavy volume in the last window there is no sweep, however far the bids fall.
pub proof fn law_light_volume_is_no_sweep(
    detector: SweepDetector,
    now: u128,
    yes_bid: i64,
    no_bid: i64,
)
    requires
        forall|yes: bool|
            #[trigger] taker_volume(
                within_window(detector.trades@, now, detector.window_nanos),
                yes,
            ) <= detector.threshold,
    ensures
        detector.finding_at(now, yes_bid, no_bid) is None,
{
}

/// Without a falling bid there is no sweep, whatever the volume.
pub proof fn law_steady_bids_are_no_sweep(
    detector: SweepDetector,
    now: u128,
    yes_bid: i64,
    no_bid: i64,
)
    requires
        detector.prev_yes_bid - yes_bid < SWEEP_DROP_CENTS,
        detector.prev_no_bid - no_bid < SWEEP_DROP_CENTS,
    ensures
        detector.finding_at(now, yes_bid, no_bid) is None,
{
}

} // verus!
