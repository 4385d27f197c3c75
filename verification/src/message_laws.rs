//! Laws of messages: what each kind of message does to a session.

use crate::book_laws;
use crate::config::Config;
use crate::order_book::Side;
use crate::pairs_laws;
use crate::rest;
use crate::session;
use crate::session::{Reaction, Session, WsMessage};
use crate::session_laws;
use crate::sweep;
use crate::sweep_laws;
use crate::tracker;
use crate::tracker::Order;
use crate::tracker_laws;
use vstd::prelude::*;

verus! {

/// Every message is a sign of life, but for the one that says that the connection is lost.
pub proof fn law_messages_are_signs_of_life(
    before: Session,
    after: Session,
    now: u128,
    config: Config,
    ticker: Seq<char>,
    msg: WsMessage,
    reaction: Reaction,
)
    requires
        before.handled(after, now, config, ticker, msg, reaction),
    ensures
        after.ws_connected <==> !(msg matches WsMessage::Error { message }
            && "WS disconnect"@.is_prefix_of(message@)),
{
}

/// A message never forgets that the book has changed or that an order was filled in this round, nor
/// the bids wanted last.
pub proof fn law_messages_forget_no_change(
    before: Session,
    after: Session,
    now: u128,
    config: Config,
    ticker: Seq<char>,
    msg: WsMessage,
    reaction: Reaction,
)
    requires
        before.handled(after, now, config, ticker, msg, reaction),
    ensures
        before.book_changed ==> after.book_changed,
        before.got_fill ==> after.got_fill,
        after.last_desired == before.last_desired,
{
}

/// A snapshot of the market replaces the book, and changes neither orders nor position.
pub proof fn law_snapshot_message(
    before: Session,
    after: Session,
    now: u128,
    config: Config,
    ticker: Seq<char>,
    msg: WsMessage,
    reaction: Reaction,
)
    requires
        before.handled(after, now, config, ticker, msg, reaction),
        msg is OrderbookSnapshot,
        session_laws::market_of(msg) == Some(ticker),
    ensures
        reaction is Nothing,
        after.book_changed,
        after.ws_connected,
        after.book.initialized,
        after.book.seq == msg->OrderbookSnapshot_seq,
        after.book.yes_bids.is_snapshot(msg->yes_levels@),
        after.book.no_bids.is_snapshot(msg->no_levels@),
        after.tracker == before.tracker,
        after.pairs == before.pairs,
        after.sweep == before.sweep,
        after.got_fill == before.got_fill,
{
}

/// A delta that follows in number changes its price on its side of the book and no other, and is news
/// for the round. The first bids seen are the ones that a sweep is measured from.
pub proof fn law_delta_message(
    before: Session,
    after: Session,
    now: u128,
    config: Config,
    ticker: Seq<char>,
    msg: WsMessage,
    reaction: Reaction,
    p: int,
)
    requires
        before.handled(after, now, config, ticker, msg, reaction),
        before.handles(ticker, msg),
        msg is OrderbookDelta,
        session_laws::market_of(msg) == Some(ticker),
        msg->OrderbookDelta_seq == before.book.seq + 1,
    ensures
        reaction is Nothing,
        after.book_changed,
        after.book.seq == before.book.seq + 1,
        after.book.initialized == before.book.initialized,
        msg->side == Side::Yes ==> after.book.no_bids == before.book.no_bids,
        msg->side == Side::No ==> after.book.yes_bids == before.book.yes_bids,
        ({
            let (was, is) = match msg->side {
                Side::Yes => (before.book.yes_bids, after.book.yes_bids),
                Side::No => (before.book.no_bids, after.book.no_bids),
            };
            let price = msg->price as int;
            &&& 1 <= price <= 99 && was.quantities@[price] + msg->delta >= 0
                ==> is.quantities@[price] == was.quantities@[price] + msg->delta
            &&& 1 <= price <= 99 && was.quantities@[price] + msg->delta < 0
                ==> is.quantities@[price] == 0
            &&& 0 <= p < 100 && p != price ==> is.quantities@[p] == was.quantities@[p]
        }),
        before.sweep.prev_yes_bid == 0 ==> after.sweep.prev_yes_bid
            == after.book.yes_bids.best_bid,
        before.sweep.prev_yes_bid != 0 ==> after.sweep.prev_yes_bid == before.sweep.prev_yes_bid,
        before.sweep.prev_no_bid == 0 ==> after.sweep.prev_no_bid == after.book.no_bids.best_bid,
        before.sweep.prev_no_bid != 0 ==> after.sweep.prev_no_bid == before.sweep.prev_no_bid,
        after.sweep.trades@ == before.sweep.trades@,
        after.tracker == before.tracker,
        after.pairs == before.pairs,
        after.got_fill == before.got_fill,
{
    let (was, is) = match msg->side {
        Side::Yes => (before.book.yes_bids, after.book.yes_bids),
        Side::No => (before.book.no_bids, after.book.no_bids),
    };
    book_laws::law_delta_changes_one_level(was, is, msg->price, msg->delta, p);
}

/// A trade never changes book, orders or position. Quotes are pulled over it exactly when it makes a
/// sweep of a side that has orders: heavy buying of one contract within the window, this trade
/// counted, while the bid on the other side has fallen by three cents or more since the last look.
pub proof fn law_trade_message(
    before: Session,
    after: Session,
    now: u128,
    config: Config,
    ticker: Seq<char>,
    msg: WsMessage,
    reaction: Reaction,
)
    requires
        before.handled(after, now, config, ticker, msg, reaction),
        msg is Trade,
        session_laws::market_of(msg) == Some(ticker),
    ensures
        after.book == before.book,
        after.tracker == before.tracker,
        after.pairs == before.pairs,
        after.book_changed == before.book_changed,
        after.got_fill == before.got_fill,
        after.sweep.prev_yes_bid == before.book.yes_bids.best_bid,
        after.sweep.prev_no_bid == before.book.no_bids.best_bid,
        after.sweep.threshold == before.sweep.threshold,
        after.sweep.window_nanos == before.sweep.window_nanos,
        ({
            let bought_yes = msg->taker_side@ == "yes"@;
            let recent = sweep::within_window(
                before.sweep.trades@,
                now,
                before.sweep.window_nanos,
            );
            let yes_volume = sweep::taker_volume(recent, true) + if bought_yes {
                msg->Trade_count as int
            } else {
                0
            };
            let no_volume = sweep::taker_volume(recent, false) + if bought_yes {
                0
            } else {
                msg->Trade_count as int
            };
            let yes_swept = no_volume > before.sweep.threshold && before.book.yes_bids.best_bid + 3
                <= before.sweep.prev_yes_bid;
            let no_swept = yes_volume > before.sweep.threshold && before.book.no_bids.best_bid + 3
                <= before.sweep.prev_no_bid;
            let pulled = if yes_swept {
                tracker::on_side(before.tracker.orders@, Side::Yes)
            } else if no_swept {
                tracker::on_side(before.tracker.orders@, Side::No)
            } else {
                seq![]
            };
            &&& pulled.len() == 0 ==> reaction is Nothing
            &&& pulled.len() > 0 ==> (reaction matches Reaction::PullQuotes(ids) && ids@
                == tracker::ids_of(pulled))
            &&& yes_swept || no_swept ==> after.sweep.trades@.len() == 0
            &&& !(yes_swept || no_swept) ==> after.sweep.trades@ == recent.push(
                (now, bought_yes, msg->Trade_count),
            )
        }),
{
    let bought_yes = msg->taker_side@ == "yes"@;
    let trade = (now, bought_yes, msg->Trade_count);
    let window = before.sweep.window_nanos;
    let recent = sweep::within_window(before.sweep.trades@, now, window);
    assert(before.sweep.trades@.push(trade) =~= before.sweep.trades@ + seq![trade]);
    sweep_laws::law_window_keeps_order(before.sweep.trades@, seq![trade], now, window);
    sweep_laws::law_window_by_age(trade, now, window);
    assert(recent + seq![trade] =~= recent.push(trade));
    sweep_laws::law_volume_adds_up(recent, seq![trade], true);
    sweep_laws::law_volume_adds_up(recent, seq![trade], false);
    sweep_laws::law_volume_of_one_trade(now, bought_yes, msg->Trade_count);
    assert(before.sweep.trades_with(now, bought_yes, msg->Trade_count) == recent.push(trade));
    assert(sweep::taker_volume(recent.push(trade), true) == sweep::taker_volume(recent, true)
        + sweep::taker_volume(seq![trade], true));
    assert(sweep::taker_volume(recent.push(trade), false) == sweep::taker_volume(recent, false)
        + sweep::taker_volume(seq![trade], false));
}

/// A fill sets the position to the reported one, is news for the round, and changes neither book nor
/// trades. All orders are canceled exactly when the position is beyond the limit, either way.
pub proof fn law_fill_message(
    before: Session,
    after: Session,
    now: u128,
    config: Config,
    ticker: Seq<char>,
    msg: WsMessage,
    reaction: Reaction,
)
    requires
        before.handled(after, now, config, ticker, msg, reaction),
        msg is Fill,
        session_laws::market_of(msg) == Some(ticker),
    ensures
        after.got_fill,
        after.book_changed == before.book_changed,
        after.pairs.inventory == msg->post_position,
        msg->post_position > config.max_inventory || -msg->post_position > config.max_inventory
            ==> reaction is CancelAll,
        msg->post_position <= config.max_inventory && -msg->post_position <= config.max_inventory
            ==> reaction is Nothing,
        after.book == before.book,
        after.sweep == before.sweep,
        msg->bought@ == "yes"@ ==> before.pairs.fill_applied(
            after.pairs,
            Side::Yes,
            msg->yes_price,
            msg->Fill_count,
            msg->post_position,
        ),
        msg->bought@ != "yes"@ ==> before.pairs.fill_applied(
            after.pairs,
            Side::No,
            msg->yes_price,
            msg->Fill_count,
            msg->post_position,
        ),
{
}

/// A fill takes its contracts off the order that it names, which is gone once nothing remains of it,
/// and leaves every other order alone.
pub proof fn law_fill_message_and_the_order(
    before: Session,
    after: Session,
    now: u128,
    config: Config,
    ticker: Seq<char>,
    msg: WsMessage,
    reaction: Reaction,
    i: int,
)
    requires
        before.wf(),
        before.handled(after, now, config, ticker, msg, reaction),
        before.handles(ticker, msg),
        msg is Fill,
        session_laws::market_of(msg) == Some(ticker),
        0 <= i < before.tracker.orders@.len(),
    ensures
        ({
            let order = before.tracker.orders@[i];
            let orders = after.tracker.orders@;
            let named = order.order_id@ == msg->Fill_order_id@;
            &&& !named ==> orders.contains(order)
            &&& named && order.remaining > msg->Fill_count ==> orders.len()
                == before.tracker.orders@.len() && orders[i] == (Order {
                remaining: (order.remaining - msg->Fill_count) as i64,
                ..order
            })
            &&& named && order.remaining <= msg->Fill_count ==> orders
                == before.tracker.orders@.remove(i)
        }),
{
    let was = before.tracker.orders@;
    let orders = after.tracker.orders@;
    let id = msg->Fill_order_id@;
    let place = tracker::place_of(was, id);
    tracker::lemma_place_of(was, id);
    tracker::lemma_place_is_unique(was, i);
    if was[i].order_id@ != id {
        if place < 0 {
            assert(orders[i] == was[i]);
        } else if orders.len() == was.len() {
            assert(orders[i] == was[i]);
        } else if i < place {
            assert(orders[i] == was[i]);
        } else {
            assert(orders[i - 1] == was[i]);
        }
    }
}

/// An order that the exchange reports as canceled or executed is forgotten, whatever the market; any
/// other status changes nothing.
pub proof fn law_order_status_message(
    before: Session,
    after: Session,
    now: u128,
    config: Config,
    ticker: Seq<char>,
    msg: WsMessage,
    reaction: Reaction,
    order: Order,
)
    requires
        before.wf(),
        before.handled(after, now, config, ticker, msg, reaction),
        msg is UserOrder,
        before.tracker.orders@.contains(order),
    ensures
        reaction is Nothing,
        msg->status@ == "canceled"@ || msg->status@ == "executed"@ ==> (
        after.tracker.orders@.contains(order) <==> order.order_id@ != msg->UserOrder_order_id@),
        msg->status@ != "canceled"@ && msg->status@ != "executed"@ ==> after.tracker.orders@
            == before.tracker.orders@,
        after.book == before.book,
        after.pairs == before.pairs,
        after.sweep == before.sweep,
        after.book_changed == before.book_changed,
        after.got_fill == before.got_fill,
{
    let id = msg->UserOrder_order_id@;
    let other = |o: Order| o.order_id@ != id;
    tracker_laws::law_remove_drops_that_order_alone(before.tracker.orders@, id);
    tracker_laws::lemma_filter_contains(before.tracker.orders@, other, order);
}

/// An error that starts with the words for a lost connection empties the book and has all orders
/// canceled; the orders, the position and the profit are still those there were. Any other error
/// changes nothing.
pub proof fn law_error_message(
    before: Session,
    after: Session,
    now: u128,
    config: Config,
    ticker: Seq<char>,
    msg: WsMessage,
    reaction: Reaction,
    details: Seq<char>,
)
    requires
        before.handled(after, now, config, ticker, msg, reaction),
        msg is Error,
    ensures
        msg->message@ == "WS disconnect"@ + details ==> {
            &&& reaction is CancelAll
            &&& !after.ws_connected
            &&& !after.book.initialized
            &&& after.book.yes_bids.best_bid == 0
            &&& after.book.no_bids.best_bid == 0
        },
        !("WS disconnect"@.is_prefix_of(msg->message@)) ==> reaction is Nothing && after == (Session {
            ws_connected: true,
            ..before
        }),
        after.tracker == before.tracker,
        after.pairs == before.pairs,
        after.sweep == before.sweep,
{
    if msg->message@ == "WS disconnect"@ + details {
        let words = "WS disconnect"@;
        assert(msg->message@.subrange(0, words.len() as int) =~= words);
        assert(words.is_prefix_of(msg->message@));
        book_laws::law_fresh_book_is_empty(after.book, 0);
    }
}

/// Messages of ordinary size are handled: with numbers within a billion nothing overflows.
pub proof fn law_ordinary_messages_are_handled(session: Session, ticker: Seq<char>, msg: WsMessage)
    requires
        session.book.seq < u64::MAX,
        -1_000_000_000_000_000 <= session.book.yes_bids.total_qty <= 1_000_000_000_000_000,
        -1_000_000_000_000_000 <= session.book.no_bids.total_qty <= 1_000_000_000_000_000,
        forall|p: int|
            0 <= p < 100 ==> -1_000_000_000 <= #[trigger] session.book.yes_bids.quantities@[p]
                <= 1_000_000_000,
        forall|p: int|
            0 <= p < 100 ==> -1_000_000_000 <= #[trigger] session.book.no_bids.quantities@[p]
                <= 1_000_000_000,
        -1_000_000_000 <= session.pairs.inventory <= 1_000_000_000,
        -1_000_000_000 <= session.pairs.realized_pnl <= 1_000_000_000,
        session.pairs.pairs_completed <= 1_000_000_000,
        forall|i: int|
            0 <= i < session.pairs.yes_legs@.len() ==> -1000
                <= #[trigger] session.pairs.yes_legs@[i] <= 1000,
        forall|i: int|
            0 <= i < session.pairs.no_legs@.len() ==> -1000 <= #[trigger] session.pairs.no_legs@[i]
                <= 1000,
        forall|i: int|
            0 <= i < session.tracker.orders@.len() ==> -1_000_000_000 <= (
            #[trigger] session.tracker.orders@[i]).remaining <= 1_000_000_000,
        msg matches WsMessage::OrderbookSnapshot { yes_levels, no_levels, .. } ==> {
            &&& yes_levels@.len() <= 1_000_000 && no_levels@.len() <= 1_000_000
            &&& forall|i: int|
                0 <= i < yes_levels@.len() ==> -1_000_000_000 <= (#[trigger] yes_levels@[i]).1
                    <= 1_000_000_000
            &&& forall|i: int|
                0 <= i < no_levels@.len() ==> -1_000_000_000 <= (#[trigger] no_levels@[i]).1
                    <= 1_000_000_000
        },
        msg matches WsMessage::OrderbookDelta { delta, .. } ==> -1_000_000_000 <= delta
            <= 1_000_000_000,
        msg matches WsMessage::Fill { yes_price, count, post_position, .. } ==> -1000 <= yes_price
            <= 1000 && -1_000_000_000 <= count <= 1_000_000_000 && -1_000_000_000 <= post_position,
    ensures
        session.handles(ticker, msg),
{
    match msg {
        WsMessage::OrderbookSnapshot { market_ticker, yes_levels, no_levels, seq } => {
            book_laws::law_ordinary_snapshots_fit(yes_levels@);
            book_laws::law_ordinary_snapshots_fit(no_levels@);
        },
        WsMessage::OrderbookDelta { market_ticker, side, price, delta, seq } => {
            book_laws::law_ordinary_deltas_fit(session.book.yes_bids, price, delta);
            book_laws::law_ordinary_deltas_fit(session.book.no_bids, price, delta);
        },
        WsMessage::Fill { market_ticker, bought, yes_price, count, order_id, post_position } => {
            pairs_laws::law_ordinary_fills_fit(
                session.pairs,
                rest::word_side(bought@),
                yes_price,
                count,
            );
            tracker_laws::law_ordinary_order_fills_fit(
                session.tracker.orders@,
                order_id@,
                count,
            );
        },
        _ => {},
    }
}

/// A placed order is tracked under its id with its side and price, the order size still to be filled
/// and the time it was placed at; orders under other ids stay.
pub proof fn law_placed_order_is_tracked(
    before: Session,
    after: Session,
    now: u128,
    config: Config,
    order_id: String,
    side: Side,
    price: i64,
    other: Order,
)
    requires
        before.wf(),
        before.order_placed(after, now, config, order_id, side, price),
    ensures
        after.tracker.orders@.contains(
            (Order { order_id, side, price, remaining: config.order_size, placed_at: now }),
        ),
        before.tracker.orders@.contains(other) && other.order_id@ != order_id@
            ==> after.tracker.orders@.contains(other),
        after.book == before.book,
        after.pairs == before.pairs,
{
    let order = Order { order_id, side, price, remaining: config.order_size, placed_at: now };
    let was = before.tracker.orders@;
    let is = after.tracker.orders@;
    let longer = order_id@.push('x');
    assert(longer.len() != order_id@.len());
    tracker_laws::law_inserted_order_is_found(was, order, longer);
    let i = tracker::place_of(is, order_id@);
    tracker::lemma_place_of(is, order_id@);
    assert(is[i] == order);
    if was.contains(other) && other.order_id@ != order_id@ {
        let j = choose|j: int| 0 <= j < was.len() && was[j] == other;
        tracker::lemma_place_of(was, order_id@);
        assert(is[j] == other);
    }
}

/// The word "yes" stands for YES, and every other word for NO.
pub proof fn law_words_for_sides(word: Seq<char>)
    ensures
        rest::word_side("yes"@) == Side::Yes,
        word != "yes"@ ==> rest::word_side(word) == Side::No,
        session::is_gone("canceled"@),
        session::is_gone("executed"@),
{
}

} // verus!
