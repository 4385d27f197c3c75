//! Laws of sweep detection: when there is a sweep, and what counts towards it.

use crate::order_book::Side;
use crate::sweep;
use crate::sweep::SweepDetector;
use vstd::prelude::*;

verus! {

/// Volumes add up: the contracts bought over two stretches of trades are those of the first plus those
/// of the second.
pub proof fn law_volume_adds_up(
    a: Seq<(u128, bool, i64)>,
    b: Seq<(u128, bool, i64)>,
    yes: bool,
)
    ensures
        sweep::taker_volume(a + b, yes) == sweep::taker_volume(a, yes) + sweep::taker_volume(
            b,
            yes,
        ),
    decreases b.len(),
{
    if b.len() == 0 {
        assert(a + b =~= a);
    } else {
        law_volume_adds_up(a, b.drop_last(), yes);
        assert((a + b).drop_last() =~= a + b.drop_last());
    }
}

/// A trade counts with all its contracts on the side that its taker bought, and not at all on the
/// other.
pub proof fn law_volume_of_one_trade(time: u128, taker_side_yes: bool, count: i64)
    ensures
        sweep::taker_volume(seq![(time, taker_side_yes, count)], taker_side_yes) == count,
        sweep::taker_volume(seq![(time, taker_side_yes, count)], !taker_side_yes) == 0,
{
    let one = seq![(time, taker_side_yes, count)];
    assert(one.drop_last() =~= seq![]);
    assert(sweep::taker_volume(one.drop_last(), true) == 0);
    assert(sweep::taker_volume(one.drop_last(), false) == 0);
}

/// Together the two sides hold every contract traded: no trade is counted twice or left out.
pub proof fn law_volume_splits_by_side(trades: Seq<(u128, bool, i64)>)
    ensures
        sweep::taker_volume(trades, true) + sweep::taker_volume(trades, false)
            == contracts_traded(trades),
    decreases trades.len(),
{
    if trades.len() > 0 {
        law_volume_splits_by_side(trades.drop_last());
    }
}

/// The contracts of all trades.
pub open spec fn contracts_traded(trades: Seq<(u128, bool, i64)>) -> int
    decreases trades.len(),
{
    if trades.len() == 0 {
        0
    } else {
        contracts_traded(trades.drop_last()) + trades.last().2
    }
}

/// A window over two stretches of trades holds what it holds of the first, then what it holds of the
/// second.
pub proof fn law_window_keeps_order(
    a: Seq<(u128, bool, i64)>,
    b: Seq<(u128, bool, i64)>,
    now: u128,
    window: u128,
)
    ensures
        sweep::within_window(a + b, now, window) == sweep::within_window(a, now, window)
            + sweep::within_window(b, now, window),
    decreases b.len(),
{
    reveal(Seq::filter);
    if b.len() == 0 {
        assert(a + b =~= a);
        assert(sweep::within_window(b, now, window) =~= seq![]);
        assert(sweep::within_window(a, now, window) + sweep::within_window(b, now, window)
            =~= sweep::within_window(a, now, window));
    } else {
        let rest = b.drop_last();
        law_window_keeps_order(a, rest, now, window);
        assert((a + b).drop_last() =~= a + rest);
        let first = sweep::within_window(a, now, window);
        let second = sweep::within_window(rest, now, window);
        assert((first + second).push(b.last()) =~= first + second.push(b.last()));
    }
}

/// A trade is in the window exactly when it is no older than the window is long.
pub proof fn law_window_by_age(trade: (u128, bool, i64), now: u128, window: u128)
    ensures
        sweep::within_window(seq![trade], now, window) == if now - trade.0 <= window {
            seq![trade]
        } else {
            seq![]
        },
{
    reveal(Seq::filter);
    let one = seq![trade];
    let none: Seq<(u128, bool, i64)> = one.drop_last();
    assert(none =~= seq![]);
    assert(sweep::within_window(none, now, window) =~= seq![]);
    assert(sweep::within_window(one, now, window) =~= if now - trade.0 <= window {
        seq![trade]
    } else {
        seq![]
    });
}

/// Heavy buying of NO while the YES bid has fallen by three cents or more is a sweep of the YES side,
/// whatever the NO bid did.
pub proof fn law_falling_yes_bid_is_swept(
    detector: SweepDetector,
    now: u128,
    yes_bid: i64,
    no_bid: i64,
)
    requires
        sweep::taker_volume(
            sweep::within_window(detector.trades@, now, detector.window_nanos),
            false,
        ) > detector.threshold,
        yes_bid + 3 <= detector.prev_yes_bid,
    ensures
        detector.finding_at(now, yes_bid, no_bid) == Some(Side::Yes),
{
}

/// Heavy buying of YES while the NO bid has fallen by three cents or more is a sweep of the NO side,
/// whatever the YES bid did, unless the YES side is swept as well.
pub proof fn law_falling_no_bid_is_swept(
    detector: SweepDetector,
    now: u128,
    yes_bid: i64,
    no_bid: i64,
)
    requires
        sweep::taker_volume(
            sweep::within_window(detector.trades@, now, detector.window_nanos),
            true,
        ) > detector.threshold,
        no_bid + 3 <= detector.prev_no_bid,
        sweep::taker_volume(
            sweep::within_window(detector.trades@, now, detector.window_nanos),
            false,
        ) <= detector.threshold || yes_bid + 3 > detector.prev_yes_bid,
    ensures
        detector.finding_at(now, yes_bid, no_bid) == Some(Side::No),
{
}

/// A side is found swept only over heavy buying of the other contract, and only while its own bid has
/// fallen by three cents or more.
pub proof fn law_finding_has_its_cause(
    detector: SweepDetector,
    now: u128,
    yes_bid: i64,
    no_bid: i64,
)
    ensures
        detector.finding_at(now, yes_bid, no_bid) == Some(Side::Yes) ==> yes_bid + 3
            <= detector.prev_yes_bid && sweep::taker_volume(
            sweep::within_window(detector.trades@, now, detector.window_nanos),
            false,
        ) > detector.threshold,
        detector.finding_at(now, yes_bid, no_bid) == Some(Side::No) ==> no_bid + 3
            <= detector.prev_no_bid && sweep::taker_volume(
            sweep::within_window(detector.trades@, now, detector.window_nanos),
            true,
        ) > detector.threshold,
{
}

/// The two sides are treated alike: with YES and NO exchanged, in the trades and in the bids, a sweep
/// of one side alone becomes a sweep of the other.
pub proof fn law_sides_are_alike(
    detector: SweepDetector,
    mirror: SweepDetector,
    now: u128,
    yes_bid: i64,
    no_bid: i64,
)
    requires
        mirror.trades@ == mirrored(detector.trades@),
        mirror.window_nanos == detector.window_nanos,
        mirror.threshold == detector.threshold,
        mirror.prev_yes_bid == detector.prev_no_bid,
        mirror.prev_no_bid == detector.prev_yes_bid,
    ensures
        detector.finding_at(now, yes_bid, no_bid) is None <==> mirror.finding_at(
            now,
            no_bid,
            yes_bid,
        ) is None,
        detector.finding_at(now, yes_bid, no_bid) == Some(Side::No) ==> mirror.finding_at(
            now,
            no_bid,
            yes_bid,
        ) == Some(Side::Yes),
{
    lemma_mirrored_window(detector.trades@, now, detector.window_nanos);
    lemma_mirrored_volume(
        sweep::within_window(detector.trades@, now, detector.window_nanos),
        true,
    );
    lemma_mirrored_volume(
        sweep::within_window(detector.trades@, now, detector.window_nanos),
        false,
    );
}

/// The trades with YES and NO exchanged.
pub open spec fn mirrored(trades: Seq<(u128, bool, i64)>) -> Seq<(u128, bool, i64)> {
    trades.map_values(|t: (u128, bool, i64)| (t.0, !t.1, t.2))
}

proof fn lemma_mirrored_volume(trades: Seq<(u128, bool, i64)>, yes: bool)
    ensures
        sweep::taker_volume(mirrored(trades), yes) == sweep::taker_volume(trades, !yes),
    decreases trades.len(),
{
    if trades.len() > 0 {
        lemma_mirrored_volume(trades.drop_last(), yes);
        assert(mirrored(trades).drop_last() =~= mirrored(trades.drop_last()));
    }
}

proof fn lemma_mirrored_window(trades: Seq<(u128, bool, i64)>, now: u128, window: u128)
    ensures
        sweep::within_window(mirrored(trades), now, window) == mirrored(
            sweep::within_window(trades, now, window),
        ),
    decreases trades.len(),
{
    reveal(Seq::filter);
    if trades.len() == 0 {
        assert(mirrored(trades) =~= seq![]);
        assert(sweep::within_window(mirrored(trades), now, window) =~= mirrored(
            sweep::within_window(trades, now, window),
        ));
    } else {
        let rest = trades.drop_last();
        lemma_mirrored_window(rest, now, window);
        assert(mirrored(trades).drop_last() =~= mirrored(rest));
        let seen = sweep::within_window(rest, now, window);
        assert(mirrored(seen.push(trades.last())) =~= mirrored(seen).push(
            mirrored(trades).last(),
        ));
    }
}

/// The next check measures from the bids of this one.
pub proof fn law_check_measures_from_the_last(
    before: SweepDetector,
    after: SweepDetector,
    now: u128,
    yes_bid: i64,
    no_bid: i64,
)
    requires
        before.checked(after, now, yes_bid, no_bid),
    ensures
        after.prev_yes_bid == yes_bid,
        after.prev_no_bid == no_bid,
        after.threshold == before.threshold,
        after.window_nanos == before.window_nanos,
        before.finding_at(now, yes_bid, no_bid) is None ==> after.trades@ == before.trades@,
        before.finding_at(now, yes_bid, no_bid) is Some ==> after.trades@.len() == 0,
{
}

/// First bids are taken in where none was seen, and later ones change nothing until a check.
pub proof fn law_first_bids_stay(
    before: SweepDetector,
    after: SweepDetector,
    yes_bid: i64,
    no_bid: i64,
)
    requires
        before.bbo_recorded(after, yes_bid, no_bid),
    ensures
        before.prev_yes_bid == 0 ==> after.prev_yes_bid == yes_bid,
        before.prev_yes_bid != 0 ==> after.prev_yes_bid == before.prev_yes_bid,
        before.prev_no_bid == 0 ==> after.prev_no_bid == no_bid,
        before.prev_no_bid != 0 ==> after.prev_no_bid == before.prev_no_bid,
        after.trades@ == before.trades@,
        after.threshold == before.threshold,
        after.window_nanos == before.window_nanos,
{
}

/// Taking in a trade leaves every trade of the last window in the record, in its order, with the new
/// one at the end, and changes neither the bids nor the settings.
pub proof fn law_trade_joins_the_record(
    before: SweepDetector,
    after: SweepDetector,
    now: u128,
    taker_side_yes: bool,
    count: i64,
)
    requires
        before.trade_recorded(after, now, taker_side_yes, count),
    ensures
        after.trades@ == sweep::within_window(before.trades@, now, before.window_nanos).push(
            (now, taker_side_yes, count),
        ),
        after.prev_yes_bid == before.prev_yes_bid,
        after.prev_no_bid == before.prev_no_bid,
        after.threshold == before.threshold,
        after.window_nanos == before.window_nanos,
{
    let trade = (now, taker_side_yes, count);
    assert(before.trades@.push(trade) =~= before.trades@ + seq![trade]);
    law_window_keeps_order(before.trades@, seq![trade], now, before.window_nanos);
    law_window_by_age(trade, now, before.window_nanos);
    let seen = sweep::within_window(before.trades@, now, before.window_nanos);
    assert(seen + seq![trade] =~= seen.push(trade));
}

/// Looking right after a trade is taken in is the same as taking it in and then checking.
pub proof fn law_look_after_a_trade(
    before: SweepDetector,
    between: SweepDetector,
    now: u128,
    taker_side_yes: bool,
    count: i64,
    yes_bid: i64,
    no_bid: i64,
)
    requires
        before.trade_recorded(between, now, taker_side_yes, count),
    ensures
        before.finding_with(now, taker_side_yes, count, yes_bid, no_bid) == between.finding_at(
            now,
            yes_bid,
            no_bid,
        ),
{
    sweep::lemma_window_of_window(
        before.trades@.push((now, taker_side_yes, count)),
        now,
        before.window_nanos,
    );
}

} // verus!
