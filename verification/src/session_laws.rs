//! Laws of a session.

use crate::config::Config;
use crate::order_book::Side;
use crate::pairs;
use crate::quoting_laws;
use crate::reconcile;
use crate::reconcile::Action;
use crate::rest;
use crate::session;
use crate::session::{CancelStep, Plan, Reaction, Session, WsMessage};
use crate::tracker;
use crate::tracker::Order;
use crate::tracker_laws;
use vstd::prelude::*;

verus! {

/// The market that a message is about, where it is about one.
pub open spec fn market_of(msg: WsMessage) -> Option<Seq<char>> {
    match msg {
        WsMessage::OrderbookSnapshot { market_ticker, .. } => Some(market_ticker@),
        WsMessage::OrderbookDelta { market_ticker, .. } => Some(market_ticker@),
        WsMessage::Trade { market_ticker, .. } => Some(market_ticker@),
        WsMessage::Fill { market_ticker, .. } => Some(market_ticker@),
        _ => None,
    }
}

/// A message about another market shows that the connection lives, and changes nothing else.
pub proof fn law_other_markets_are_ignored(
    before: Session,
    after: Session,
    now: u128,
    config: Config,
    ticker: Seq<char>,
    msg: WsMessage,
    reaction: Reaction,
)
    requires
        before.handled(after, now, config, ticker, msg, reaction),
        market_of(msg) matches Some(market) && market != ticker,
    ensures
        reaction is Nothing,
        after == (Session { ws_connected: true, ..before }),
{
}

/// A delta out of order ends the session, with all orders canceled and the book as it was.
pub proof fn law_sequence_gap_ends_the_session(
    before: Session,
    after: Session,
    now: u128,
    config: Config,
    ticker: Seq<char>,
    msg: WsMessage,
    reaction: Reaction,
)
    requires
        before.handled(after, now, config, ticker, msg, reaction),
        market_of(msg) == Some(ticker),
        msg matches WsMessage::OrderbookDelta { seq, .. } && seq != before.book.seq + 1,
    ensures
        reaction is CancelAllAndEnd,
        after.book == before.book,
{
}

/// A session ends over a delta out of order only.
pub proof fn law_only_a_gap_ends_the_session(
    before: Session,
    after: Session,
    now: u128,
    config: Config,
    ticker: Seq<char>,
    msg: WsMessage,
    reaction: Reaction,
)
    requires
        before.handled(after, now, config, ticker, msg, reaction),
        reaction is CancelAllAndEnd,
    ensures
        market_of(msg) == Some(ticker),
        msg matches WsMessage::OrderbookDelta { seq, .. } && seq != before.book.seq + 1,
{
}

/// When the connection is lost all orders are canceled, and nothing is quoted on the old book.
pub proof fn law_disconnect_stops_quoting(
    before: Session,
    after: Session,
    now: u128,
    config: Config,
    ticker: Seq<char>,
    msg: WsMessage,
    reaction: Reaction,
)
    requires
        before.handled(after, now, config, ticker, msg, reaction),
        msg matches WsMessage::Error { message } && session::is_disconnect(message@),
    ensures
        reaction is CancelAll,
        !after.ws_connected,
        !after.book.initialized,
        after.book.is_fresh(),
{
}

/// Before a snapshot of the market has come in nothing is quoted, and no other message changes that.
pub proof fn law_no_quotes_before_a_snapshot(
    before: Session,
    after: Session,
    planned: Session,
    now: u128,
    config: Config,
    ticker: Seq<char>,
    msg: WsMessage,
    reaction: Reaction,
    plan: Plan,
)
    requires
        !before.book.initialized,
        before.handled(after, now, config, ticker, msg, reaction),
        !(msg is OrderbookSnapshot && market_of(msg) == Some(ticker)),
        after.planned(planned, config, plan),
    ensures
        !after.book.initialized,
        plan is Nothing,
{
}

/// A fill beyond the largest position allowed has all orders canceled, one within it does not.
pub proof fn law_hard_cap_cancels_all(
    before: Session,
    after: Session,
    now: u128,
    config: Config,
    ticker: Seq<char>,
    msg: WsMessage,
    reaction: Reaction,
)
    requires
        before.handled(after, now, config, ticker, msg, reaction),
        msg is Fill,
        market_of(msg) == Some(ticker),
    ensures
        after.pairs.inventory == msg->post_position,
        reaction is CancelAll <==> session::abs(after.pairs.inventory as int)
            > config.max_inventory,
        !(reaction is CancelAll) ==> reaction is Nothing,
{
}

/// While trading has to stop no order is placed, and nothing but a further fill in this market changes
/// that.
pub proof fn law_halt_lasts(
    before: Session,
    after: Session,
    planned: Session,
    now: u128,
    config: Config,
    ticker: Seq<char>,
    msg: WsMessage,
    reaction: Reaction,
    plan: Plan,
)
    requires
        before.halted(config),
        before.handled(after, now, config, ticker, msg, reaction),
        !(msg is Fill && market_of(msg) == Some(ticker)),
        after.planned(planned, config, plan),
    ensures
        after.halted(config),
        after.active() ==> plan is Halt,
        !(plan is Execute),
        planned == after,
{
}

/// Once the loss cap is hit trading stops: no order is placed any more.
pub proof fn law_loss_cap_halts(before: Session, after: Session, config: Config, plan: Plan)
    requires
        before.loss_capped(config),
        before.planned(after, config, plan),
    ensures
        before.active() ==> plan is Halt,
        !(plan is Execute),
        after == before,
{
}

/// A fill that leaves the position beyond the largest one allowed stops trading at once: all orders
/// are canceled and none is placed, neither then nor after any message but a further fill in this
/// market.
pub proof fn law_hard_cap_halts(
    before: Session,
    after: Session,
    later: Session,
    planned: Session,
    later_planned: Session,
    now: u128,
    later_now: u128,
    config: Config,
    ticker: Seq<char>,
    fill: WsMessage,
    msg: WsMessage,
    reaction: Reaction,
    later_reaction: Reaction,
    plan: Plan,
    later_plan: Plan,
)
    requires
        before.handled(after, now, config, ticker, fill, reaction),
        fill is Fill,
        market_of(fill) == Some(ticker),
        session::abs(fill->post_position as int) > config.max_inventory,
        after.planned(planned, config, plan),
        after.handled(later, later_now, config, ticker, msg, later_reaction),
        !(msg is Fill && market_of(msg) == Some(ticker)),
        later.planned(later_planned, config, later_plan),
    ensures
        reaction is CancelAll,
        after.active() ==> plan is Halt,
        !(plan is Execute),
        later.halted(config),
        later.active() ==> later_plan is Halt,
        !(later_plan is Execute),
{
    law_halt_lasts(
        after,
        later,
        later_planned,
        later_now,
        config,
        ticker,
        msg,
        later_reaction,
        later_plan,
    );
}

/// Quotes are pulled only over a sweep. Where the cancel succeeds, no order is left on the swept side,
/// and every order of the other side is.
pub proof fn law_sweep_pulls_one_side(
    before: Session,
    after: Session,
    now: u128,
    config: Config,
    ticker: Seq<char>,
    msg: WsMessage,
    reaction: Reaction,
)
    requires
        before.wf(),
        before.handled(after, now, config, ticker, msg, reaction),
        reaction is PullQuotes,
    ensures
        msg is Trade,
        ({
            let swept = before.sweep.finding_with(
                now,
                rest::word_side(msg->taker_side@) == Side::Yes,
                msg->Trade_count,
                before.book.yes_bids.best_bid,
                before.book.no_bids.best_bid,
            );
            let left = tracker::without_all(after.tracker.orders@, reaction->PullQuotes_0@);
            &&& swept is Some
            &&& left == tracker::on_side(before.tracker.orders@, pairs::opposite(swept->0))
            &&& tracker::pending(left, swept->0) == 0
        }),
{
    let swept = before.sweep.finding_with(
        now,
        rest::word_side(msg->taker_side@) == Side::Yes,
        msg->Trade_count,
        before.book.yes_bids.best_bid,
        before.book.no_bids.best_bid,
    );
    tracker_laws::law_pulling_a_side_leaves_the_other(before.tracker.orders@, swept->0);
}

/// A sweep is answered at once: all orders of the swept side are pulled, where there are any.
pub proof fn law_sweep_is_answered(
    before: Session,
    after: Session,
    now: u128,
    config: Config,
    ticker: Seq<char>,
    msg: WsMessage,
    reaction: Reaction,
    swept: Side,
)
    requires
        before.handled(after, now, config, ticker, msg, reaction),
        msg is Trade,
        market_of(msg) == Some(ticker),
        before.sweep.finding_with(
            now,
            rest::word_side(msg->taker_side@) == Side::Yes,
            msg->Trade_count,
            before.book.yes_bids.best_bid,
            before.book.no_bids.best_bid,
        ) == Some(swept),
    ensures
        ({
            let orders = tracker::on_side(before.tracker.orders@, swept);
            if orders.len() > 0 {
                reaction matches Reaction::PullQuotes(ids) && ids@ == tracker::ids_of(orders)
            } else {
                reaction is Nothing
            }
        }),
{
}

/// A round without news plans nothing: right after a plan, with the orders, the book and the position
/// as they were, there is nothing to do.
pub proof fn law_quiet_round_plans_nothing(
    before: Session,
    after: Session,
    quiet: Session,
    last: Session,
    config: Config,
    plan: Plan,
    next: Plan,
)
    requires
        !before.halted(config),
        before.planned(after, config, plan),
        quiet == (Session { book_changed: false, got_fill: false, ..after }),
        quiet.planned(last, config, next),
    ensures
        next is Nothing,
        last == quiet,
{
}

/// However often it fails, canceling all orders is tried three times and then given up.
pub proof fn law_cancel_all_ends(attempt: u32, ok: bool)
    requires
        attempt < session::CANCEL_ATTEMPTS,
    ensures
        session::step_after(attempt, ok) == CancelStep::Retry ==> attempt + 1
            < session::CANCEL_ATTEMPTS,
        session::step_after((session::CANCEL_ATTEMPTS - 1) as u32, ok) != CancelStep::Retry,
        session::step_after(attempt, true) == CancelStep::Finished,
{
}

/// The bids at these prices.
pub open spec fn bids_at(side: Side, prices: Seq<i64>) -> Seq<(Side, i64)> {
    prices.map_values(|p: i64| (side, p))
}

/// The cancels of two lists of actions, one behind the other.
proof fn lemma_split_concat(a: Seq<Action>, b: Seq<Action>)
    ensures
        session::cancel_ids(a + b) == session::cancel_ids(a) + session::cancel_ids(b),
        session::bids_in(a + b) == session::bids_in(a) + session::bids_in(b),
    decreases b.len(),
{
    if b.len() == 0 {
        assert(a + b =~= a);
        assert(session::cancel_ids(a) + session::cancel_ids(b) =~= session::cancel_ids(a));
        assert(session::bids_in(a) + session::bids_in(b) =~= session::bids_in(a));
    } else {
        let rest = b.drop_last();
        lemma_split_concat(a, rest);
        assert((a + b).drop_last() =~= a + rest);
        assert((a + b).last() == b.last());
        match b.last() {
            Action::Cancel(id) => {
                assert((session::cancel_ids(a) + session::cancel_ids(rest)).push(id)
                    =~= session::cancel_ids(a) + session::cancel_ids(rest).push(id));
            },
            Action::Place(side, price) => {
                assert((session::bids_in(a) + session::bids_in(rest)).push((side, price))
                    =~= session::bids_in(a) + session::bids_in(rest).push((side, price)));
            },
        }
    }
}

/// A list of cancels holds their ids, and no bids.
proof fn lemma_split_cancels(orders: Seq<Order>)
    ensures
        session::cancel_ids(reconcile::cancels(orders)) == tracker::ids_of(orders),
        session::bids_in(reconcile::cancels(orders)).len() == 0,
    decreases orders.len(),
{
    let actions = reconcile::cancels(orders);
    if orders.len() == 0 {
        assert(tracker::ids_of(orders) =~= seq![]);
    } else {
        let rest = orders.drop_last();
        lemma_split_cancels(rest);
        assert(actions.drop_last() =~= reconcile::cancels(rest));
        assert(tracker::ids_of(rest).push(orders.last().order_id) =~= tracker::ids_of(orders));
    }
}

/// A list of bids holds those bids, and no cancels.
proof fn lemma_split_placements(side: Side, prices: Seq<i64>)
    ensures
        session::bids_in(reconcile::placements(side, prices)) == bids_at(side, prices),
        session::cancel_ids(reconcile::placements(side, prices)).len() == 0,
    decreases prices.len(),
{
    let actions = reconcile::placements(side, prices);
    if prices.len() == 0 {
        assert(bids_at(side, prices) =~= seq![]);
    } else {
        let rest = prices.drop_last();
        lemma_split_placements(side, rest);
        assert(actions.drop_last() =~= reconcile::placements(side, rest));
        assert(bids_at(side, rest).push((side, prices.last())) =~= bids_at(side, prices));
    }
}

/// The cancels and bids of one side.
proof fn lemma_split_side(desired: Seq<i64>, current: Seq<Order>, side: Side)
    ensures
        ({
            let actions = reconcile::side_actions(desired, current, side);
            &&& session::cancel_ids(actions) == tracker::ids_of(
                reconcile::dropped(desired, current),
            )
            &&& session::bids_in(actions) == bids_at(
                side,
                reconcile::missing(desired, reconcile::prices_of(current)),
            )
        }),
{
    let gone = reconcile::dropped(desired, current);
    let missing = reconcile::missing(desired, reconcile::prices_of(current));
    let a = reconcile::cancels(gone);
    let b = reconcile::placements(side, missing);
    lemma_split_concat(a, b);
    lemma_split_cancels(gone);
    lemma_split_placements(side, missing);
    assert(tracker::ids_of(gone) + session::cancel_ids(b) =~= tracker::ids_of(gone));
    assert(session::bids_in(a) + bids_at(side, missing) =~= bids_at(side, missing));
}

/// A plan cancels the orders at unwanted prices and bids at the wanted prices without an order, YES
/// before NO.
pub proof fn law_plan_is_what_differs(
    before: Session,
    after: Session,
    config: Config,
    cancels: Seq<String>,
    placements: Seq<(Side, i64)>,
    plan: Plan,
)
    requires
        before.planned(after, config, plan),
        plan matches Plan::Execute { cancels: c, placements: p } && c@ == cancels && p@
            == placements,
    ensures
        ({
            let yes = before.wanted(config, Side::Yes);
            let no = before.wanted(config, Side::No);
            let yes_orders = tracker::on_side(before.tracker.orders@, Side::Yes);
            let no_orders = tracker::on_side(before.tracker.orders@, Side::No);
            &&& cancels == tracker::ids_of(reconcile::dropped(yes, yes_orders)) + tracker::ids_of(
                reconcile::dropped(no, no_orders),
            )
            &&& placements == bids_at(
                Side::Yes,
                reconcile::missing(yes, reconcile::prices_of(yes_orders)),
            ) + bids_at(Side::No, reconcile::missing(no, reconcile::prices_of(no_orders)))
        }),
{
    let yes = before.wanted(config, Side::Yes);
    let no = before.wanted(config, Side::No);
    let yes_orders = tracker::on_side(before.tracker.orders@, Side::Yes);
    let no_orders = tracker::on_side(before.tracker.orders@, Side::No);
    lemma_split_concat(
        reconcile::side_actions(yes, yes_orders, Side::Yes),
        reconcile::side_actions(no, no_orders, Side::No),
    );
    lemma_split_side(yes, yes_orders, Side::Yes);
    lemma_split_side(no, no_orders, Side::No);
}

/// Every missing price is a wanted one, and no more are missing than wanted.
proof fn lemma_missing_are_wanted(desired: Seq<i64>, taken: Seq<i64>)
    ensures
        reconcile::missing(desired, taken).len() <= desired.len(),
        forall|i: int|
            0 <= i < reconcile::missing(desired, taken).len() ==> desired.contains(
                #[trigger] reconcile::missing(desired, taken)[i],
            ),
    decreases desired.len(),
{
    if desired.len() > 0 {
        let rest = desired.drop_last();
        lemma_missing_are_wanted(rest, taken);
        let below = reconcile::missing(rest, taken);
        let all = reconcile::missing(desired, taken);
        assert forall|i: int| 0 <= i < all.len() implies desired.contains(#[trigger] all[i]) by {
            if i < below.len() {
                assert(all[i] == below[i]);
                assert(rest.contains(below[i]));
                let j = choose|j: int| 0 <= j < rest.len() && rest[j] == below[i];
                assert(desired[j] == all[i]);
            } else {
                assert(desired[desired.len() - 1] == all[i]);
            }
        }
    }
}

/// A bid that a plan places is one of the prices wanted on its side, between 1 and 99 cents.
pub proof fn law_plan_places_wanted_prices(
    before: Session,
    after: Session,
    config: Config,
    placements: Seq<(Side, i64)>,
    plan: Plan,
    i: int,
)
    requires
        before.planned(after, config, plan),
        plan matches Plan::Execute { placements: p, .. } && p@ == placements,
        0 <= i < placements.len(),
    ensures
        before.wanted(config, placements[i].0).contains(placements[i].1),
        1 <= placements[i].1 <= 99,
{
    law_plan_is_what_differs(
        before,
        after,
        config,
        plan->cancels@,
        placements,
        plan,
    );
    let (side, price) = placements[i];
    let yes = before.wanted(config, Side::Yes);
    let no = before.wanted(config, Side::No);
    let yes_taken = reconcile::prices_of(tracker::on_side(before.tracker.orders@, Side::Yes));
    let no_taken = reconcile::prices_of(tracker::on_side(before.tracker.orders@, Side::No));
    lemma_missing_are_wanted(yes, yes_taken);
    lemma_missing_are_wanted(no, no_taken);
    let n = reconcile::missing(yes, yes_taken).len();
    if i < n {
        assert(reconcile::missing(yes, yes_taken)[i] == price);
    } else {
        assert(reconcile::missing(no, no_taken)[i - n] == price);
    }
    let wanted = before.wanted(config, side);
    let k = choose|k: int| 0 <= k < wanted.len() && wanted[k] == price;
    quoting_laws::law_quotes_form_a_grid(
        before.book,
        before.pairs,
        before.tracker.orders@,
        config,
        side,
        k,
    );
}

/// How many of these bids are on one side.
pub open spec fn bids_on(placements: Seq<(Side, i64)>, side: Side) -> int
    decreases placements.len(),
{
    if placements.len() == 0 {
        0
    } else {
        bids_on(placements.drop_last(), side) + if placements.last().0 == side {
            1int
        } else {
            0
        }
    }
}

/// The bids of one side count on that side alone.
proof fn lemma_bids_on(placements: Seq<(Side, i64)>, own: Side, prices: Seq<i64>, side: Side)
    ensures
        bids_on(placements + bids_at(own, prices), side) == bids_on(placements, side) + if own
            == side {
            prices.len() as int
        } else {
            0
        },
    decreases prices.len(),
{
    let all = placements + bids_at(own, prices);
    if prices.len() == 0 {
        assert(all =~= placements);
    } else {
        let rest = prices.drop_last();
        lemma_bids_on(placements, own, rest, side);
        assert(all.drop_last() =~= placements + bids_at(own, rest));
    }
}

/// Carrying out a plan never risks a position beyond the limit: if on one side all that is pending
/// and all that the plan places were filled, the position there would still be within
/// `max_inventory`. Holds of orders whose size is not negative.
pub proof fn law_plan_respects_max_inventory(
    before: Session,
    after: Session,
    config: Config,
    placements: Seq<(Side, i64)>,
    plan: Plan,
)
    requires
        before.planned(after, config, plan),
        plan matches Plan::Execute { placements: p, .. } && p@ == placements,
        config.order_size >= 0,
    ensures
        ({
            let orders = before.tracker.orders@;
            let yes = bids_on(placements, Side::Yes);
            let no = bids_on(placements, Side::No);
            &&& yes > 0 ==> before.pairs.inventory + tracker::pending(orders, Side::Yes) + yes
                * config.order_size <= config.max_inventory
            &&& no > 0 ==> -before.pairs.inventory + tracker::pending(orders, Side::No) + no
                * config.order_size <= config.max_inventory
        }),
{
    let orders = before.tracker.orders@;
    law_plan_is_what_differs(before, after, config, plan->cancels@, placements, plan);
    let yes = before.wanted(config, Side::Yes);
    let no = before.wanted(config, Side::No);
    let yes_missing = reconcile::missing(
        yes,
        reconcile::prices_of(tracker::on_side(orders, Side::Yes)),
    );
    let no_missing = reconcile::missing(
        no,
        reconcile::prices_of(tracker::on_side(orders, Side::No)),
    );
    lemma_missing_are_wanted(yes, reconcile::prices_of(tracker::on_side(orders, Side::Yes)));
    lemma_missing_are_wanted(no, reconcile::prices_of(tracker::on_side(orders, Side::No)));
    let none: Seq<(Side, i64)> = seq![];
    assert(none + bids_at(Side::Yes, yes_missing) =~= bids_at(Side::Yes, yes_missing));
    lemma_bids_on(none, Side::Yes, yes_missing, Side::Yes);
    lemma_bids_on(none, Side::Yes, yes_missing, Side::No);
    lemma_bids_on(bids_at(Side::Yes, yes_missing), Side::No, no_missing, Side::Yes);
    lemma_bids_on(bids_at(Side::Yes, yes_missing), Side::No, no_missing, Side::No);
    quoting_laws::law_quotes_respect_max_inventory(before.book, before.pairs, orders, config);
    let size = config.order_size as int;
    assert(yes_missing.len() * size <= yes.len() * size) by (nonlinear_arith)
        requires
            yes_missing.len() <= yes.len(),
            size >= 0,
    ;
    assert(no_missing.len() * size <= no.len() * size) by (nonlinear_arith)
        requires
            no_missing.len() <= no.len(),
            size >= 0,
    ;
}

/// How many of these bids are at one price of one side.
pub open spec fn bids_priced(placements: Seq<(Side, i64)>, side: Side, price: i64) -> int
    decreases placements.len(),
{
    if placements.len() == 0 {
        0
    } else {
        bids_priced(placements.drop_last(), side, price) + if placements.last() == (side, price) {
            1int
        } else {
            0
        }
    }
}

/// The bids of one side count at their prices on that side alone.
proof fn lemma_bids_priced(
    placements: Seq<(Side, i64)>,
    own: Side,
    prices: Seq<i64>,
    side: Side,
    price: i64,
)
    ensures
        bids_priced(placements + bids_at(own, prices), side, price) == bids_priced(
            placements,
            side,
            price,
        ) + if own == side {
            reconcile::times(prices, price)
        } else {
            0
        },
    decreases prices.len(),
{
    let all = placements + bids_at(own, prices);
    if prices.len() == 0 {
        assert(all =~= placements);
    } else {
        let rest = prices.drop_last();
        lemma_bids_priced(placements, own, rest, side, price);
        assert(all.drop_last() =~= placements + bids_at(own, rest));
    }
}

/// The cancels of a plan leave, on each side, the orders that stay there.
proof fn lemma_cancels_leave_kept(
    orders: Seq<Order>,
    yes: Seq<i64>,
    no: Seq<i64>,
    side: Side,
)
    requires
        tracker::distinct_ids(orders),
    ensures
        ({
            let ids = tracker::ids_of(
                reconcile::dropped(yes, tracker::on_side(orders, Side::Yes)),
            ) + tracker::ids_of(reconcile::dropped(no, tracker::on_side(orders, Side::No)));
            let wanted = if side == Side::Yes {
                yes
            } else {
                no
            };
            tracker::on_side(tracker::without_all(orders, ids), side) == reconcile::kept(
                wanted,
                tracker::on_side(orders, side),
            )
        }),
{
    let yes_gone = reconcile::dropped(yes, tracker::on_side(orders, Side::Yes));
    let no_gone = reconcile::dropped(no, tracker::on_side(orders, Side::No));
    let ids = tracker::ids_of(yes_gone) + tracker::ids_of(no_gone);
    let wanted = if side == Side::Yes {
        yes
    } else {
        no
    };
    let current = tracker::on_side(orders, side);
    let own_gone = reconcile::dropped(wanted, current);
    let own_ids = tracker::ids_of(own_gone);
    let on = |o: Order| o.side == side;
    let left = |o: Order| !tracker_laws::has_id(ids, o.order_id@);
    let own_left = |o: Order| !tracker_laws::has_id(own_ids, o.order_id@);
    tracker::lemma_filter_keeps_distinct(orders, on);
    tracker_laws::law_remove_each_drops_those_orders_alone(orders, ids);
    tracker_laws::law_remove_each_drops_those_orders_alone(current, own_ids);
    quoting_laws::law_cancels_leave_the_kept_orders(wanted, current);
    tracker_laws::lemma_filter_twice(orders, left, on);
    tracker_laws::lemma_filter_twice(orders, on, left);
    let a = |o: Order| left(o) && on(o);
    let b = |o: Order| on(o) && left(o);
    tracker_laws::lemma_filter_agrees(orders, a, b);
    assert forall|i: int| 0 <= i < current.len() implies left(#[trigger] current[i]) == own_left(
        current[i],
    ) by {
        lemma_own_ids(orders, yes_gone, no_gone, yes, no, side, i);
    }
    tracker_laws::lemma_filter_agrees(current, left, own_left);
}

/// An order is canceled over the cancels of its own side only.
proof fn lemma_own_ids(
    orders: Seq<Order>,
    yes_gone: Seq<Order>,
    no_gone: Seq<Order>,
    yes: Seq<i64>,
    no: Seq<i64>,
    side: Side,
    i: int,
)
    requires
        tracker::distinct_ids(orders),
        yes_gone == reconcile::dropped(yes, tracker::on_side(orders, Side::Yes)),
        no_gone == reconcile::dropped(no, tracker::on_side(orders, Side::No)),
        0 <= i < tracker::on_side(orders, side).len(),
    ensures
        ({
            let id = tracker::on_side(orders, side)[i].order_id@;
            let own = if side == Side::Yes {
                yes_gone
            } else {
                no_gone
            };
            tracker_laws::has_id(tracker::ids_of(yes_gone) + tracker::ids_of(no_gone), id)
                == tracker_laws::has_id(tracker::ids_of(own), id)
        }),
{
    let order = tracker::on_side(orders, side)[i];
    let id = order.order_id@;
    let ids = tracker::ids_of(yes_gone) + tracker::ids_of(no_gone);
    let n = yes_gone.len();
    let own = if side == Side::Yes {
        yes_gone
    } else {
        no_gone
    };
    lemma_dropped_on_side(orders, yes, Side::Yes);
    lemma_dropped_on_side(orders, no, Side::No);
    lemma_side_member(orders, side, i);
    let at = choose|at: int| 0 <= at < orders.len() && orders[at] == order;
    if tracker_laws::has_id(ids, id) {
        let k = choose|k: int| 0 <= k < ids.len() && (#[trigger] ids[k])@ == id;
        let gone = if k < n {
            yes_gone[k]
        } else {
            no_gone[k - n]
        };
        assert(gone.order_id@ == id);
        let j = choose|j: int| 0 <= j < orders.len() && orders[j] == gone;
        tracker::lemma_place_is_unique(orders, j);
        tracker::lemma_place_is_unique(orders, at);
        assert(gone == order);
        if k < n {
            assert(tracker::ids_of(own)[k]@ == id);
        } else {
            assert(tracker::ids_of(own)[k - n]@ == id);
        }
    }
    if tracker_laws::has_id(tracker::ids_of(own), id) {
        let k = choose|k: int|
            0 <= k < tracker::ids_of(own).len() && (#[trigger] tracker::ids_of(own)[k])@ == id;
        if side == Side::Yes {
            assert(ids[k]@ == id);
        } else {
            assert(ids[n + k]@ == id);
        }
    }
}

/// The orders of one side are orders of that side.
proof fn lemma_side_member(orders: Seq<Order>, side: Side, i: int)
    requires
        tracker::distinct_ids(orders),
        0 <= i < tracker::on_side(orders, side).len(),
    ensures
        tracker::on_side(orders, side)[i].side == side,
        orders.contains(tracker::on_side(orders, side)[i]),
{
    broadcast use vstd::seq_lib::group_filter_ensures;

    let on = |o: Order| o.side == side;
    assert(on(orders.filter(on)[i]));
    tracker::lemma_filter_keeps_distinct(orders, on);
}

/// The orders dropped on one side are orders of that side.
proof fn lemma_dropped_on_side(orders: Seq<Order>, desired: Seq<i64>, side: Side)
    requires
        tracker::distinct_ids(orders),
    ensures
        forall|k: int|
            #![trigger reconcile::dropped(desired, tracker::on_side(orders, side))[k]]
            0 <= k < reconcile::dropped(desired, tracker::on_side(orders, side)).len() ==> {
                let gone = reconcile::dropped(desired, tracker::on_side(orders, side))[k];
                gone.side == side && orders.contains(gone)
            },
{
    let current = tracker::on_side(orders, side);
    quoting_laws::lemma_dropped_are_current(desired, current);
    assert forall|k: int|
        #![trigger reconcile::dropped(desired, current)[k]]
        0 <= k < reconcile::dropped(desired, current).len() implies {
        let gone = reconcile::dropped(desired, current)[k];
        gone.side == side && orders.contains(gone)
    } by {
        let gone = reconcile::dropped(desired, current)[k];
        let i = choose|i: int| 0 <= i < current.len() && current[i] == gone;
        lemma_side_member(orders, side, i);
    }
}

/// A plan that succeeds brings about what is wanted: once its cancels are done, the orders left on a
/// side are those that stay there, and with its bids there are at every price as many orders as are
/// wanted there.
pub proof fn law_executed_plan_reaches_the_wanted_orders(
    before: Session,
    after: Session,
    config: Config,
    cancels: Seq<String>,
    placements: Seq<(Side, i64)>,
    plan: Plan,
    side: Side,
    price: i64,
)
    requires
        before.wf(),
        before.planned(after, config, plan),
        plan matches Plan::Execute { cancels: c, placements: p } && c@ == cancels && p@
            == placements,
    ensures
        ({
            let left = tracker::on_side(
                tracker::without_all(before.tracker.orders@, cancels),
                side,
            );
            &&& left == reconcile::kept(
                before.wanted(config, side),
                tracker::on_side(before.tracker.orders@, side),
            )
            &&& reconcile::times(reconcile::prices_of(left), price) + bids_priced(
                placements,
                side,
                price,
            ) == reconcile::times(before.wanted(config, side), price)
        }),
{
    let orders = before.tracker.orders@;
    let yes = before.wanted(config, Side::Yes);
    let no = before.wanted(config, Side::No);
    law_plan_is_what_differs(before, after, config, cancels, placements, plan);
    lemma_cancels_leave_kept(orders, yes, no, side);
    quoting_laws::law_reconcile_reaches_the_wanted_orders(
        before.wanted(config, side),
        tracker::on_side(orders, side),
        price,
    );
    let yes_missing = reconcile::missing(
        yes,
        reconcile::prices_of(tracker::on_side(orders, Side::Yes)),
    );
    let no_missing = reconcile::missing(
        no,
        reconcile::prices_of(tracker::on_side(orders, Side::No)),
    );
    let none: Seq<(Side, i64)> = seq![];
    assert(none + bids_at(Side::Yes, yes_missing) =~= bids_at(Side::Yes, yes_missing));
    lemma_bids_priced(none, Side::Yes, yes_missing, side, price);
    lemma_bids_priced(bids_at(Side::Yes, yes_missing), Side::No, no_missing, side, price);
}

/// The ids that a plan cancels.
pub open spec fn plan_cancels(plan: Plan) -> Seq<String> {
    match plan {
        Plan::Execute { cancels, placements } => cancels@,
        _ => seq![],
    }
}

/// The bids that a plan places.
pub open spec fn plan_bids(plan: Plan) -> Seq<(Side, i64)> {
    match plan {
        Plan::Execute { cancels, placements } => placements@,
        _ => seq![],
    }
}

/// How many orders bid for one contract at one price.
pub open spec fn orders_at(orders: Seq<Order>, side: Side, price: i64) -> int
    decreases orders.len(),
{
    if orders.len() == 0 {
        0
    } else {
        orders_at(orders.drop_last(), side, price) + if orders.last().side == side
            && orders.last().price == price {
            1int
        } else {
            0
        }
    }
}

/// The orders left once those with these ids are canceled.
pub open spec fn left_after(orders: Seq<Order>, canceled: Seq<String>) -> Seq<Order> {
    orders.filter(|o: Order| !tracker_laws::has_id(canceled, o.order_id@))
}

/// Whether the session is to look at its quotes: there is a connection and a book, the loss is less
/// than the cap, the position is within the limit, and the book, an order or the wanted bids have
/// changed.
pub open spec fn has_to_quote(session: Session, config: Config) -> bool {
    &&& session.ws_connected
    &&& session.book.initialized
    &&& session.pairs.realized_pnl + config.daily_loss_cap_cents > 0
    &&& session.pairs.inventory <= config.max_inventory
    &&& -session.pairs.inventory <= config.max_inventory
    &&& {
        ||| session.book_changed
        ||| session.got_fill
        ||| session.last_desired.yes_prices@ != session.wanted(config, Side::Yes)
        ||| session.last_desired.no_prices@ != session.wanted(config, Side::No)
    }
}

/// Whether a bid at this price is to stand on this side.
pub open spec fn bid_belongs(session: Session, config: Config, side: Side, price: i64) -> bool {
    quoting_laws::belongs_to_grid(
        session.book,
        session.pairs,
        session.tracker.orders@,
        config,
        side,
        price as int,
    )
}

proof fn lemma_orders_at(orders: Seq<Order>, side: Side, price: i64)
    ensures
        orders_at(orders, side, price) == reconcile::times(
            reconcile::prices_of(tracker::on_side(orders, side)),
            price,
        ),
    decreases orders.len(),
{
    reveal(Seq::filter);
    if orders.len() == 0 {
        assert(reconcile::prices_of(tracker::on_side(orders, side)) =~= seq![]);
    } else {
        let rest = orders.drop_last();
        lemma_orders_at(rest, side, price);
        let below = tracker::on_side(rest, side);
        let order = orders.last();
        if order.side == side {
            assert(reconcile::prices_of(below.push(order)) =~= reconcile::prices_of(below).push(
                order.price,
            ));
            reconcile::lemma_times_push(reconcile::prices_of(below), order.price, price);
        }
    }
}

/// A plan cancels and places what its actions say; without actions there is nothing of either.
proof fn lemma_plan_actions(before: Session, after: Session, config: Config, plan: Plan)
    requires
        before.planned(after, config, plan),
        has_to_quote(before, config),
    ensures
        !(plan is Halt),
        plan_cancels(plan) == session::cancel_ids(before.actions(config)),
        plan_bids(plan) == session::bids_in(before.actions(config)),
{
}

/// Carrying out a plan brings about exactly the grid: on each side, at every price of the grid one
/// order stands and at every other price none. Orders that belong there are not canceled, nothing is
/// placed where an order stays, and a plan of nothing leaves orders that already are the grid.
pub proof fn law_plan_leads_to_the_grid(
    before: Session,
    after: Session,
    config: Config,
    plan: Plan,
    side: Side,
    price: i64,
)
    requires
        before.wf(),
        before.planned(after, config, plan),
        has_to_quote(before, config),
    ensures
        ({
            let resting = orders_at(before.tracker.orders@, side, price);
            let left = orders_at(
                left_after(before.tracker.orders@, plan_cancels(plan)),
                side,
                price,
            );
            let placed = bids_priced(plan_bids(plan), side, price);
            &&& bid_belongs(before, config, side, price) ==> left + placed == 1
            &&& bid_belongs(before, config, side, price) && resting >= 1 ==> left == 1 && placed
                == 0
            &&& !bid_belongs(before, config, side, price) ==> left == 0 && placed == 0
        }),
        !(plan is Halt),
{
    let orders = before.tracker.orders@;
    let yes = before.wanted(config, Side::Yes);
    let no = before.wanted(config, Side::No);
    let yes_orders = tracker::on_side(orders, Side::Yes);
    let no_orders = tracker::on_side(orders, Side::No);
    lemma_plan_actions(before, after, config, plan);
    lemma_split_concat(
        reconcile::side_actions(yes, yes_orders, Side::Yes),
        reconcile::side_actions(no, no_orders, Side::No),
    );
    lemma_split_side(yes, yes_orders, Side::Yes);
    lemma_split_side(no, no_orders, Side::No);
    let ids = plan_cancels(plan);
    assert(ids == tracker::ids_of(reconcile::dropped(yes, yes_orders)) + tracker::ids_of(
        reconcile::dropped(no, no_orders),
    ));
    lemma_cancels_leave_kept(orders, yes, no, side);
    tracker_laws::law_remove_each_drops_those_orders_alone(orders, ids);
    let left = left_after(orders, ids);
    assert(left == tracker::without_all(orders, ids));
    let wanted = before.wanted(config, side);
    let current = tracker::on_side(orders, side);
    lemma_orders_at(left, side, price);
    lemma_orders_at(orders, side, price);
    quoting_laws::lemma_kept_times(wanted, current, price);
    reconcile::lemma_times(reconcile::prices_of(current), price);
    let yes_missing = reconcile::missing(yes, reconcile::prices_of(yes_orders));
    let no_missing = reconcile::missing(no, reconcile::prices_of(no_orders));
    reconcile::lemma_missing_times(wanted, reconcile::prices_of(current), price);
    let none: Seq<(Side, i64)> = seq![];
    assert(none + bids_at(Side::Yes, yes_missing) =~= bids_at(Side::Yes, yes_missing));
    lemma_bids_priced(none, Side::Yes, yes_missing, side, price);
    lemma_bids_priced(bids_at(Side::Yes, yes_missing), Side::No, no_missing, side, price);
    quoting_laws::law_wanted_prices_are_the_grid(
        before.book,
        before.pairs,
        orders,
        config,
        side,
        price,
    );
}

/// A plan of nothing means that nothing had to be done: every resting order is at a price of the grid,
/// no two are at the same one, and no price of the grid is without an order.
pub proof fn law_nothing_planned_means_nothing_to_do(
    before: Session,
    after: Session,
    config: Config,
    side: Side,
    price: i64,
)
    requires
        before.wf(),
        before.planned(after, config, Plan::Nothing),
        has_to_quote(before, config),
    ensures
        orders_at(before.tracker.orders@, side, price) == if bid_belongs(
            before,
            config,
            side,
            price,
        ) {
            1int
        } else {
            0
        },
{
    let orders = before.tracker.orders@;
    law_plan_leads_to_the_grid(before, after, config, Plan::Nothing, side, price);
    let keep = |o: Order| !tracker_laws::has_id(seq![], o.order_id@);
    tracker_laws::lemma_filter_all(orders, keep);
    assert(left_after(orders, seq![]) == orders);
    assert(bids_priced(seq![], side, price) == 0);
}

/// Where something has to be done, a plan is made: as long as an order rests at a price outside the
/// grid, twice at one of it, or a price of the grid has none, the plan is to act.
pub proof fn law_something_to_do_is_planned(
    before: Session,
    after: Session,
    config: Config,
    plan: Plan,
    side: Side,
    price: i64,
)
    requires
        before.wf(),
        before.planned(after, config, plan),
        has_to_quote(before, config),
        orders_at(before.tracker.orders@, side, price) != if bid_belongs(
            before,
            config,
            side,
            price,
        ) {
            1int
        } else {
            0
        },
    ensures
        plan is Execute,
{
    if plan is Nothing {
        law_nothing_planned_means_nothing_to_do(before, after, config, side, price);
    }
    law_plan_leads_to_the_grid(before, after, config, plan, side, price);
}

/// Only orders that rest are canceled, each once.
pub proof fn law_plan_cancels_resting_orders_once(
    before: Session,
    after: Session,
    config: Config,
    plan: Plan,
)
    requires
        before.wf(),
        before.planned(after, config, plan),
    ensures
        forall|i: int|
            0 <= i < plan_cancels(plan).len() ==> exists|j: int|
                0 <= j < before.tracker.orders@.len() && (
                #[trigger] before.tracker.orders@[j]).order_id == #[trigger] plan_cancels(plan)[i],
        forall|i: int, k: int|
            0 <= i < k < plan_cancels(plan).len() ==> (#[trigger] plan_cancels(plan)[i])@ != (
            #[trigger] plan_cancels(plan)[k])@,
{
    let orders = before.tracker.orders@;
    if plan is Execute {
        law_plan_is_what_differs(
            before,
            after,
            config,
            plan->cancels@,
            plan->placements@,
            plan,
        );
        let yes = before.wanted(config, Side::Yes);
        let no = before.wanted(config, Side::No);
        let yes_gone = reconcile::dropped(yes, tracker::on_side(orders, Side::Yes));
        let no_gone = reconcile::dropped(no, tracker::on_side(orders, Side::No));
        let n = yes_gone.len();
        let gone = yes_gone + no_gone;
        lemma_dropped_on_side(orders, yes, Side::Yes);
        lemma_dropped_on_side(orders, no, Side::No);
        tracker::lemma_filter_keeps_distinct(orders, |o: Order| o.side == Side::Yes);
        tracker::lemma_filter_keeps_distinct(orders, |o: Order| o.side == Side::No);
        lemma_dropped_distinct(yes, tracker::on_side(orders, Side::Yes));
        lemma_dropped_distinct(no, tracker::on_side(orders, Side::No));
        assert forall|i: int| 0 <= i < plan_cancels(plan).len() implies exists|j: int|
            0 <= j < orders.len() && (#[trigger] orders[j]).order_id == #[trigger] plan_cancels(
                plan,
            )[i] by {
            let order = gone[i];
            if i < n {
                assert(yes_gone[i] == order);
            } else {
                assert(no_gone[i - n] == order);
            }
            assert(orders.contains(order));
            let j = choose|j: int| 0 <= j < orders.len() && orders[j] == order;
            assert(orders[j].order_id == plan_cancels(plan)[i]);
        }
        assert forall|i: int, k: int| 0 <= i < k < plan_cancels(plan).len() implies (
        #[trigger] plan_cancels(plan)[i])@ != (#[trigger] plan_cancels(plan)[k])@ by {
            assert(plan_cancels(plan)[i] == gone[i].order_id);
            assert(plan_cancels(plan)[k] == gone[k].order_id);
            if k < n {
                assert(yes_gone[i].order_id@ != yes_gone[k].order_id@);
            } else if i >= n {
                assert(no_gone[i - n].order_id@ != no_gone[k - n].order_id@);
            } else {
                let a = yes_gone[i];
                let b = no_gone[k - n];
                assert(a.side != b.side);
                let x = choose|x: int| 0 <= x < orders.len() && orders[x] == a;
                let y = choose|y: int| 0 <= y < orders.len() && orders[y] == b;
                tracker::lemma_place_is_unique(orders, x);
                tracker::lemma_place_is_unique(orders, y);
            }
        }
    }
}

proof fn lemma_dropped_distinct(desired: Seq<i64>, current: Seq<Order>)
    requires
        tracker::distinct_ids(current),
    ensures
        tracker::distinct_ids(reconcile::dropped(desired, current)),
    decreases current.len(),
{
    if current.len() > 0 {
        let rest = current.drop_last();
        assert(tracker::distinct_ids(rest));
        lemma_dropped_distinct(desired, rest);
        quoting_laws::lemma_dropped_are_current(desired, rest);
        let below = reconcile::dropped(desired, rest);
        let all = reconcile::dropped(desired, current);
        assert forall|i: int, j: int| 0 <= i < j < all.len() implies (#[trigger] all[i]).order_id@
            != (#[trigger] all[j]).order_id@ by {
            assert(all[i] == below[i]);
            if j < below.len() {
                assert(all[j] == below[j]);
            } else {
                assert(rest.contains(below[i]));
                let m = choose|m: int| 0 <= m < rest.len() && rest[m] == below[i];
                assert(current[m].order_id@ != current[current.len() - 1].order_id@);
            }
        }
    }
}

/// Where no order rests, the wanted prices are bid for as they come: YES before NO, each side from the
/// best bid down.
pub proof fn law_first_bids_come_best_first(
    before: Session,
    after: Session,
    config: Config,
    plan: Plan,
)
    requires
        before.planned(after, config, plan),
        has_to_quote(before, config),
        before.tracker.orders@.len() == 0,
    ensures
        plan_cancels(plan).len() == 0,
        plan_bids(plan) == bids_at(Side::Yes, before.wanted(config, Side::Yes)) + bids_at(
            Side::No,
            before.wanted(config, Side::No),
        ),
{
    let yes = before.wanted(config, Side::Yes);
    let no = before.wanted(config, Side::No);
    reveal(Seq::filter);
    let yes_orders = tracker::on_side(before.tracker.orders@, Side::Yes);
    let no_orders = tracker::on_side(before.tracker.orders@, Side::No);
    lemma_plan_actions(before, after, config, plan);
    lemma_split_concat(
        reconcile::side_actions(yes, yes_orders, Side::Yes),
        reconcile::side_actions(no, no_orders, Side::No),
    );
    lemma_split_side(yes, yes_orders, Side::Yes);
    lemma_split_side(no, no_orders, Side::No);
    assert(reconcile::prices_of(yes_orders) =~= seq![]);
    assert(reconcile::prices_of(no_orders) =~= seq![]);
    reconcile::lemma_missing_all(yes);
    reconcile::lemma_missing_all(no);
}

/// A loss of the cap or more stops trading, however large it is; so does a position beyond the limit,
/// either way.
pub proof fn law_losses_and_positions_halt(
    before: Session,
    after: Session,
    config: Config,
    plan: Plan,
)
    requires
        before.ws_connected,
        before.book.initialized,
        before.planned(after, config, plan),
    ensures
        plan is Halt <==> (before.pairs.realized_pnl + config.daily_loss_cap_cents <= 0
            || before.pairs.inventory > config.max_inventory || -before.pairs.inventory
            > config.max_inventory),
        plan is Halt ==> after == before,
{
}

/// Who is stopped by a loss is stopped by a larger one, and who is stopped by a position is stopped by
/// one further out.
pub proof fn law_halting_is_monotone(
    a: Session,
    b: Session,
    a_after: Session,
    b_after: Session,
    config: Config,
    a_plan: Plan,
    b_plan: Plan,
)
    requires
        a.active() && b.active(),
        a.planned(a_after, config, a_plan),
        b.planned(b_after, config, b_plan),
        a_plan is Halt,
        b.pairs.realized_pnl <= a.pairs.realized_pnl,
        0 <= a.pairs.inventory <= b.pairs.inventory || b.pairs.inventory <= a.pairs.inventory <= 0,
    ensures
        b_plan is Halt,
{
}

/// Without a connection, or without a book, nothing is planned and nothing changes.
pub proof fn law_no_plan_without_a_book(
    before: Session,
    after: Session,
    config: Config,
    plan: Plan,
)
    requires
        !before.ws_connected || !before.book.initialized,
        before.planned(after, config, plan),
    ensures
        plan is Nothing,
        after == before,
{
}

/// Planning changes nothing but the bids wanted last.
pub proof fn law_planning_changes_no_order(
    before: Session,
    after: Session,
    config: Config,
    plan: Plan,
)
    requires
        before.planned(after, config, plan),
    ensures
        after.book == before.book,
        after.tracker == before.tracker,
        after.pairs == before.pairs,
        after.sweep == before.sweep,
        after.ws_connected == before.ws_connected,
        after.book_changed == before.book_changed,
        after.got_fill == before.got_fill,
        has_to_quote(before, config) ==> after.last_desired.yes_prices@ == before.wanted(
            config,
            Side::Yes,
        ) && after.last_desired.no_prices@ == before.wanted(config, Side::No),
{
}

/// Plans at ordinary positions can be made: with numbers within a billion nothing overflows.
pub proof fn law_ordinary_plans_fit(session: Session, config: Config)
    requires
        -1_000_000_000 <= session.pairs.inventory <= 1_000_000_000,
        -1_000_000_000 <= config.max_inventory <= 1_000_000_000,
        -1_000_000_000 <= config.order_size <= 1_000_000_000,
        -1_000_000_000 <= config.daily_loss_cap_cents,
        session.tracker.orders@.len() <= 1_000_000,
        forall|i: int|
            0 <= i < session.tracker.orders@.len() ==> -1_000_000_000 <= (
            #[trigger] session.tracker.orders@[i]).remaining <= 1_000_000_000,
    ensures
        session.plan_fits(config),
{
    quoting_laws::law_ordinary_positions_fit(
        session.book,
        session.pairs,
        session.tracker.orders@,
        config,
    );
}

/// Canceling all is tried again after the first and the second failure and given up after the third;
/// a success ends it at once.
pub proof fn law_three_attempts(attempt: u32)
    requires
        attempt < session::CANCEL_ATTEMPTS,
    ensures
        session::step_after(attempt, true) == CancelStep::Finished,
        attempt < 2 ==> session::step_after(attempt, false) == CancelStep::Retry,
        attempt == 2 ==> session::step_after(attempt, false) == CancelStep::GiveUp,
        attempt <= 2,
{
}

/// What reconciling places at a price of a side: what is wanted there beyond what rests there.
pub proof fn lemma_reconciled_bids(
    yes: Seq<i64>,
    no: Seq<i64>,
    orders: Seq<Order>,
    side: Side,
    price: i64,
)
    ensures
        ({
            let wanted = reconcile::times(
                match side {
                    Side::Yes => yes,
                    Side::No => no,
                },
                price,
            );
            let resting = orders_at(orders, side, price);
            bids_priced(session::bids_in(reconcile::all_actions(yes, no, orders)), side, price)
                == if wanted > resting {
                wanted - resting
            } else {
                0
            }
        }),
{
    let yes_orders = tracker::on_side(orders, Side::Yes);
    let no_orders = tracker::on_side(orders, Side::No);
    lemma_split_concat(
        reconcile::side_actions(yes, yes_orders, Side::Yes),
        reconcile::side_actions(no, no_orders, Side::No),
    );
    lemma_split_side(yes, yes_orders, Side::Yes);
    lemma_split_side(no, no_orders, Side::No);
    let yes_missing = reconcile::missing(yes, reconcile::prices_of(yes_orders));
    let no_missing = reconcile::missing(no, reconcile::prices_of(no_orders));
    let none: Seq<(Side, i64)> = seq![];
    assert(none + bids_at(Side::Yes, yes_missing) =~= bids_at(Side::Yes, yes_missing));
    lemma_bids_priced(none, Side::Yes, yes_missing, side, price);
    lemma_bids_priced(bids_at(Side::Yes, yes_missing), Side::No, no_missing, side, price);
    lemma_orders_at(orders, side, price);
    reconcile::lemma_missing_times(yes, reconcile::prices_of(yes_orders), price);
    reconcile::lemma_missing_times(no, reconcile::prices_of(no_orders), price);
}

} // verus!
