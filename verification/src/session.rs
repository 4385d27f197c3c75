//! One session in one market: what to do about each message, and what to quote after a round of them.

use crate::book_side;
use crate::book_side::BookSide;
use crate::clock;
use crate::config::Config;
use crate::order_book::{OrderBook, Side};
use crate::pairs::PairTracker;
use crate::quoting;
use crate::quoting::DesiredOrders;
use crate::reconcile;
use crate::reconcile::Action;
use crate::rest;
use crate::sweep;
use crate::sweep::SweepDetector;
use crate::text;
use crate::tracker;
use crate::tracker::{Order, Tracker};
use vstd::prelude::*;

verus! {

/// How often canceling all orders is tried.
pub const CANCEL_ATTEMPTS: u32 = 3;

/// A message of the exchange.
#[derive(Debug)]
pub enum WsMessage {
    /// The full book of a market.
    OrderbookSnapshot {
        market_ticker: String,
        yes_levels: Vec<(i64, i64)>,
        no_levels: Vec<(i64, i64)>,
        seq: u64,
    },
    /// A change at one price of a book.
    OrderbookDelta { market_ticker: String, side: Side, price: i64, delta: i64, seq: u64 },
    /// A trade between others.
    Trade { market_ticker: String, count: i64, taker_side: String },
    /// A fill of one of our orders.
    Fill {
        market_ticker: String,
        bought: String,
        yes_price: i64,
        count: i64,
        order_id: String,
        post_position: i64,
    },
    /// The status of one of our orders.
    UserOrder { order_id: String, status: String },
    /// Something went wrong.
    Error { message: String },
    /// Anything else.
    Other,
}

/// What a message calls for.
#[derive(Debug)]
pub enum Reaction {
    Nothing,
    /// Cancel these orders: a sweep is going on.
    PullQuotes(Vec<String>),
    /// Cancel all orders and go on.
    CancelAll,
    /// Cancel all orders and leave the market.
    CancelAllAndEnd,
}

/// What a round calls for.
#[derive(Debug)]
pub enum Plan {
    Nothing,
    /// The loss cap is hit or the position is beyond its limit: cancel all orders and pause.
    Halt,
    /// Cancel the orders with these ids, then place bids at these prices.
    Execute { cancels: Vec<String>, placements: Vec<(Side, i64)> },
}

/// What follows an attempt to cancel all orders.
#[derive(Debug, Clone, Copy, PartialEq, Eq, Structural)]
pub enum CancelStep {
    /// It succeeded.
    Finished,
    /// Try again.
    Retry,
    /// It failed too often.
    GiveUp,
}

/// The state of a session.
pub struct Session {
    pub book: OrderBook,
    pub tracker: Tracker,
    pub pairs: PairTracker,
    /// Its clock is the clock of the session.
    pub sweep: SweepDetector,
    pub ws_connected: bool,
    /// The bids wanted last.
    pub last_desired: DesiredOrders,
    /// Whether the book has changed in this round.
    pub book_changed: bool,
    /// Whether an order was filled in this round.
    pub got_fill: bool,
}

/// The ids of the orders that a list of actions cancels.
pub open spec fn cancel_ids(actions: Seq<Action>) -> Seq<String>
    decreases actions.len(),
{
    if actions.len() == 0 {
        seq![]
    } else {
        match actions.last() {
            Action::Cancel(id) => cancel_ids(actions.drop_last()).push(id),
            Action::Place(_, _) => cancel_ids(actions.drop_last()),
        }
    }
}

/// The bids that a list of actions places.
pub open spec fn bids_in(actions: Seq<Action>) -> Seq<(Side, i64)>
    decreases actions.len(),
{
    if actions.len() == 0 {
        seq![]
    } else {
        match actions.last() {
            Action::Cancel(_) => bids_in(actions.drop_last()),
            Action::Place(side, price) => bids_in(actions.drop_last()).push((side, price)),
        }
    }
}

/// What follows attempt number `attempt`, counted from 0.
pub open spec fn step_after(attempt: u32, ok: bool) -> CancelStep {
    if ok {
        CancelStep::Finished
    } else if attempt + 1 < CANCEL_ATTEMPTS {
        CancelStep::Retry
    } else {
        CancelStep::GiveUp
    }
}

/// Whether the status of an order says that it is gone.
pub open spec fn is_gone(status: Seq<char>) -> bool {
    status == "canceled"@ || status == "executed"@
}

/// Whether an error means that the connection is lost.
pub open spec fn is_disconnect(message: Seq<char>) -> bool {
    "WS disconnect"@.is_prefix_of(message)
}

/// The size of a number.
pub open spec fn abs(n: int) -> int {
    if n < 0 {
        -n
    } else {
        n
    }
}

impl Session {
    /// The parts are well formed, and at most one side has contracts that wait for a partner.
    pub open spec fn wf(self) -> bool {
        self.book.wf() && self.tracker.wf() && self.pairs.one_sided()
    }

    /// Whether there is a book to quote on.
    pub open spec fn active(self) -> bool {
        self.ws_connected && self.book.initialized
    }

    /// Whether the loss cap is hit.
    pub open spec fn loss_capped(self, config: Config) -> bool {
        self.pairs.realized_pnl <= -config.daily_loss_cap_cents
    }

    /// Whether the position is beyond the largest one allowed.
    pub open spec fn over_limit(self, config: Config) -> bool {
        abs(self.pairs.inventory as int) > config.max_inventory
    }

    /// Whether trading has to stop: the loss cap is hit, or the position is beyond the limit.
    pub open spec fn halted(self, config: Config) -> bool {
        self.loss_capped(config) || self.over_limit(config)
    }

    /// The prices wanted on one side.
    pub open spec fn wanted(self, config: Config, side: Side) -> Seq<i64> {
        quoting::desired_prices(self.book, self.pairs, self.tracker.orders@, config, side)
    }

    /// What takes the resting orders to the wanted ones.
    pub open spec fn actions(self, config: Config) -> Seq<Action> {
        reconcile::all_actions(
            self.wanted(config, Side::Yes),
            self.wanted(config, Side::No),
            self.tracker.orders@,
        )
    }

    /// Whether the same is wanted as before, and neither the book nor an order has changed.
    pub open spec fn nothing_new(self, config: Config) -> bool {
        &&& self.last_desired.yes_prices@ == self.wanted(config, Side::Yes)
        &&& self.last_desired.no_prices@ == self.wanted(config, Side::No)
        &&& !self.got_fill
        &&& !self.book_changed
    }

    /// Whether a message can be handled within the integers that everything is counted in.
    pub open spec fn handles(self, ticker: Seq<char>, msg: WsMessage) -> bool {
        match msg {
            WsMessage::OrderbookSnapshot { market_ticker, yes_levels, no_levels, seq } => {
                market_ticker@ == ticker ==> book_side::snapshot_fits(yes_levels@)
                    && book_side::snapshot_fits(no_levels@)
            },
            WsMessage::OrderbookDelta { market_ticker, side, price, delta, seq } => {
                market_ticker@ == ticker ==> self.book.seq < u64::MAX && (seq == self.book.seq + 1
                    ==> self.book.bids(side).delta_fits(price, delta))
            },
            WsMessage::Fill { market_ticker, bought, yes_price, count, order_id, post_position } => {
                market_ticker@ == ticker ==> {
                    &&& self.pairs.fill_fits(rest::word_side(bought@), yes_price, count)
                    &&& tracker::fill_fits(self.tracker.orders@, order_id@, count)
                    &&& post_position > i64::MIN
                }
            },
            _ => true,
        }
    }

    /// `after` is `self` with a trade at `now` taken in and looked at, and `reaction` is what it calls
    /// for: the orders of a swept side are pulled.
    pub open spec fn trade_handled(
        self,
        after: Session,
        now: u128,
        yes: bool,
        count: i64,
        reaction: Reaction,
    ) -> bool {
        let yes_bid = self.book.yes_bids.best_bid;
        let no_bid = self.book.no_bids.best_bid;
        let finding = self.sweep.finding_with(now, yes, count, yes_bid, no_bid);
        &&& after == (Session { ws_connected: true, sweep: after.sweep, ..self })
        &&& after.sweep.trades@ == if finding is Some {
            seq![]
        } else {
            self.sweep.trades_with(now, yes, count)
        }
        &&& after.sweep.prev_yes_bid == yes_bid
        &&& after.sweep.prev_no_bid == no_bid
        &&& after.sweep.same_settings(self.sweep)
        &&& match finding {
            Some(side) => {
                let orders = tracker::on_side(self.tracker.orders@, side);
                if orders.len() > 0 {
                    reaction matches Reaction::PullQuotes(ids) && ids@ == tracker::ids_of(orders)
                } else {
                    reaction is Nothing
                }
            },
            None => reaction is Nothing,
        }
    }

    /// `after` is `self` with a fill taken in, and `reaction` is what it calls for: beyond the largest
    /// position allowed all orders are canceled.
    pub open spec fn fill_handled(
        self,
        after: Session,
        config: Config,
        side: Side,
        yes_price: i64,
        count: i64,
        order_id: Seq<char>,
        post_position: i64,
        reaction: Reaction,
    ) -> bool {
        &&& after == (Session {
            ws_connected: true,
            pairs: after.pairs,
            tracker: after.tracker,
            got_fill: true,
            ..self
        })
        &&& self.pairs.fill_applied(after.pairs, side, yes_price, count, post_position)
        &&& after.tracker.orders@ == tracker::after_fill(self.tracker.orders@, order_id, count)
        &&& if after.over_limit(config) {
            reaction is CancelAll
        } else {
            reaction is Nothing
        }
    }

    /// `after` is `self` with a message taken in at `now`, and `reaction` is what it calls for. A
    /// message about another market counts only as a sign of life.
    pub open spec fn handled(
        self,
        after: Session,
        now: u128,
        config: Config,
        ticker: Seq<char>,
        msg: WsMessage,
        reaction: Reaction,
    ) -> bool {
        let alive = Session { ws_connected: true, ..self };
        match msg {
            WsMessage::OrderbookSnapshot { market_ticker, yes_levels, no_levels, seq } => {
                &&& reaction is Nothing
                &&& if market_ticker@ == ticker {
                    &&& after == (Session { book: after.book, book_changed: true, ..alive })
                    &&& after.book.is_snapshot(yes_levels@, no_levels@, seq)
                } else {
                    after == alive
                }
            },
            WsMessage::OrderbookDelta { market_ticker, side, price, delta, seq } => {
                if market_ticker@ != ticker {
                    after == alive && reaction is Nothing
                } else if seq != self.book.seq + 1 {
                    after == alive && reaction is CancelAllAndEnd
                } else {
                    &&& reaction is Nothing
                    &&& after == (Session {
                        book: after.book,
                        sweep: after.sweep,
                        book_changed: true,
                        ..alive
                    })
                    &&& self.book.delta_applied(after.book, side, price, delta, seq)
                    &&& self.sweep.bbo_recorded(
                        after.sweep,
                        after.book.yes_bids.best_bid,
                        after.book.no_bids.best_bid,
                    )
                }
            },
            WsMessage::Trade { market_ticker, count, taker_side } => {
                if market_ticker@ == ticker {
                    self.trade_handled(
                        after,
                        now,
                        rest::word_side(taker_side@) == Side::Yes,
                        count,
                        reaction,
                    )
                } else {
                    after == alive && reaction is Nothing
                }
            },
            WsMessage::Fill { market_ticker, bought, yes_price, count, order_id, post_position } => {
                if market_ticker@ == ticker {
                    self.fill_handled(
                        after,
                        config,
                        rest::word_side(bought@),
                        yes_price,
                        count,
                        order_id@,
                        post_position,
                        reaction,
                    )
                } else {
                    after == alive && reaction is Nothing
                }
            },
            WsMessage::UserOrder { order_id, status } => {
                &&& reaction is Nothing
                &&& after == (Session { tracker: after.tracker, ..alive })
                &&& after.tracker.orders@ == if is_gone(status@) {
                    tracker::without(self.tracker.orders@, order_id@)
                } else {
                    self.tracker.orders@
                }
            },
            WsMessage::Error { message } => {
                if is_disconnect(message@) {
                    &&& reaction is CancelAll
                    &&& after == (Session { ws_connected: false, book: after.book, ..self })
                    &&& after.book.is_fresh()
                } else {
                    after == alive && reaction is Nothing
                }
            },
            WsMessage::Other => after == alive && reaction is Nothing,
        }
    }

    /// Whether a plan can be made within `i64`.
    pub open spec fn plan_fits(self, config: Config) -> bool {
        self.active() ==> {
            &&& config.daily_loss_cap_cents > i64::MIN
            &&& self.pairs.inventory > i64::MIN
            &&& !self.halted(config) ==> quoting::desired_fits(
                self.book,
                self.pairs,
                self.tracker.orders@,
                config,
            )
        }
    }

    /// `plan` is what the round calls for, and `after` is `self` with the wanted bids remembered.
    pub open spec fn planned(self, after: Session, config: Config, plan: Plan) -> bool {
        if !self.active() {
            plan is Nothing && after == self
        } else if self.halted(config) {
            plan is Halt && after == self
        } else if self.nothing_new(config) {
            plan is Nothing && after == self
        } else {
            &&& after == (Session { last_desired: after.last_desired, ..self })
            &&& after.last_desired.yes_prices@ == self.wanted(config, Side::Yes)
            &&& after.last_desired.no_prices@ == self.wanted(config, Side::No)
            &&& if self.actions(config).len() == 0 {
                plan is Nothing
            } else {
                plan matches Plan::Execute { cancels, placements } && cancels@ == cancel_ids(
                    self.actions(config),
                ) && placements@ == bids_in(self.actions(config))
            }
        }
    }

    /// A session that starts with a position, before the first message.
    pub fn new(config: &Config, starting_position: i64) -> (session: Self)
        ensures
            session.wf(),
            session.book.is_fresh(),
            session.tracker.orders@.len() == 0,
            session.pairs.yes_legs@.len() == 0,
            session.pairs.no_legs@.len() == 0,
            session.pairs.pairs_completed == 0,
            session.pairs.realized_pnl == 0,
            session.pairs.inventory == starting_position,
            session.sweep.trades@.len() == 0,
            session.sweep.window_nanos == config.sweep_window_ms * 1_000_000,
            session.sweep.threshold == config.sweep_volume_threshold,
            session.sweep.prev_yes_bid == 0,
            session.sweep.prev_no_bid == 0,
            !session.ws_connected,
            session.last_desired.yes_prices@.len() == 0,
            session.last_desired.no_prices@.len() == 0,
            !session.book_changed,
            !session.got_fill,
    {
        Session {
            book: OrderBook::new(),
            tracker: Tracker::new(),
            pairs: PairTracker::new(starting_position),
            sweep: SweepDetector::new(config.sweep_window_ms, config.sweep_volume_threshold),
            ws_connected: false,
            last_desired: DesiredOrders { yes_prices: Vec::new(), no_prices: Vec::new() },
            book_changed: false,
            got_fill: false,
        }
    }

    /// Starts a round of messages.
    pub fn start_round(&mut self)
        ensures
            *final(self) == (Session { book_changed: false, got_fill: false, ..*old(self) }),
    {
        self.book_changed = false;
        self.got_fill = false;
    }

    /// Whether `on_message` takes this message.
    pub fn can_handle(&self, ticker: &str, msg: &WsMessage) -> (fits: bool)
        ensures
            fits == self.handles(ticker@, *msg),
    {
        match msg {
            WsMessage::OrderbookSnapshot { market_ticker, yes_levels, no_levels, seq: _ } => {
                if text::same_text(market_ticker.as_str(), ticker) {
                    BookSide::can_apply_snapshot(yes_levels.as_slice())
                        && BookSide::can_apply_snapshot(no_levels.as_slice())
                } else {
                    true
                }
            },
            WsMessage::OrderbookDelta { market_ticker, side, price, delta, seq } => {
                if text::same_text(market_ticker.as_str(), ticker) {
                    if self.book.seq == u64::MAX {
                        false
                    } else if *seq == self.book.seq + 1 {
                        match side {
                            Side::Yes => self.book.yes_bids.can_apply_delta(*price, *delta),
                            Side::No => self.book.no_bids.can_apply_delta(*price, *delta),
                        }
                    } else {
                        true
                    }
                } else {
                    true
                }
            },
            WsMessage::Fill { market_ticker, bought, yes_price, count, order_id, post_position } => {
                if text::same_text(market_ticker.as_str(), ticker) {
                    self.pairs.can_record_fill(
                        rest::side_from_name(bought.as_str()),
                        *yes_price,
                        *count,
                    ) && self.tracker.can_record_fill(order_id.as_str(), *count)
                        && *post_position > i64::MIN
                } else {
                    true
                }
            },
            _ => true,
        }
    }

    /// Takes in a trade at `now` and looks for a sweep.
    fn on_trade(&mut self, now: u128, yes: bool, count: i64) -> (reaction: Reaction)
        requires
            old(self).ws_connected,
        ensures
            old(self).trade_handled(*final(self), now, yes, count, reaction),
    {
        let yes_bid: i64 = self.book.best_yes_bid();
        let no_bid: i64 = self.book.no_bids.best_bid;
        self.sweep.record_trade_at(now, yes, count);
        proof {
            sweep::lemma_window_of_window(
                old(self).sweep.trades@.push((now, yes, count)),
                now,
                self.sweep.window_nanos,
            );
        }
        match self.sweep.check_at(now, yes_bid, no_bid) {
            Some(side) => {
                let ids: Vec<String> = self.tracker.ids_on_side(side);
                if ids.len() > 0 {
                    Reaction::PullQuotes(ids)
                } else {
                    Reaction::Nothing
                }
            },
            None => Reaction::Nothing,
        }
    }

    /// Takes in a fill.
    fn on_fill(
        &mut self,
        config: &Config,
        side: Side,
        yes_price: i64,
        count: i64,
        order_id: &str,
        post_position: i64,
    ) -> (reaction: Reaction)
        requires
            old(self).wf(),
            old(self).ws_connected,
            old(self).pairs.fill_fits(side, yes_price, count),
            tracker::fill_fits(old(self).tracker.orders@, order_id@, count),
            post_position > i64::MIN,
        ensures
            old(self).fill_handled(
                *final(self),
                *config,
                side,
                yes_price,
                count,
                order_id@,
                post_position,
                reaction,
            ),
            final(self).wf(),
    {
        self.pairs.record_fill(side, yes_price, count, post_position);
        self.tracker.record_fill(order_id, count);
        self.got_fill = true;
        if self.is_over_limit(config) {
            Reaction::CancelAll
        } else {
            Reaction::Nothing
        }
    }

    /// Takes in a message at `now` and says what it calls for.
    pub fn on_message(&mut self, now: u128, config: &Config, ticker: &str, msg: &WsMessage) -> (reaction:
        Reaction)
        requires
            old(self).wf(),
            old(self).handles(ticker@, *msg),
        ensures
            old(self).handled(*final(self), now, *config, ticker@, *msg, reaction),
            final(self).wf(),
    {
        self.ws_connected = true;
        match msg {
            WsMessage::OrderbookSnapshot { market_ticker, yes_levels, no_levels, seq } => {
                if text::same_text(market_ticker.as_str(), ticker) {
                    self.book.apply_snapshot(yes_levels.as_slice(), no_levels.as_slice(), *seq);
                    self.book_changed = true;
                }
                Reaction::Nothing
            },
            WsMessage::OrderbookDelta { market_ticker, side, price, delta, seq } => {
                if text::same_text(market_ticker.as_str(), ticker) {
                    if !self.book.apply_delta(*side, *price, *delta, *seq) {
                        return Reaction::CancelAllAndEnd;
                    }
                    self.book_changed = true;
                    self.sweep.record_bbo(self.book.best_yes_bid(), self.book.no_bids.best_bid);
                }
                Reaction::Nothing
            },
            WsMessage::Trade { market_ticker, count, taker_side } => {
                if text::same_text(market_ticker.as_str(), ticker) {
                    let yes: bool = rest::side_from_name(taker_side.as_str()) == Side::Yes;
                    self.on_trade(now, yes, *count)
                } else {
                    Reaction::Nothing
                }
            },
            WsMessage::Fill { market_ticker, bought, yes_price, count, order_id, post_position } => {
                if text::same_text(market_ticker.as_str(), ticker) {
                    self.on_fill(
                        config,
                        rest::side_from_name(bought.as_str()),
                        *yes_price,
                        *count,
                        order_id.as_str(),
                        *post_position,
                    )
                } else {
                    Reaction::Nothing
                }
            },
            WsMessage::UserOrder { order_id, status } => {
                if text::same_text(status.as_str(), "canceled") || text::same_text(
                    status.as_str(),
                    "executed",
                ) {
                    self.tracker.remove(order_id.as_str());
                }
                Reaction::Nothing
            },
            WsMessage::Error { message } => {
                if text::starts_with(message.as_str(), "WS disconnect") {
                    self.ws_connected = false;
                    self.book = OrderBook::new();
                    Reaction::CancelAll
                } else {
                    Reaction::Nothing
                }
            },
            WsMessage::Other => Reaction::Nothing,
        }
    }

    /// Takes in a message at the time of the call and says what it calls for. `None`, with the session
    /// as it was, where handling it would leave the integers that everything is counted in.
    pub fn receive(&mut self, config: &Config, ticker: &str, msg: &WsMessage) -> (reaction: Option<
        Reaction,
    >)
        requires
            old(self).wf(),
        ensures
            final(self).wf(),
            reaction is Some <==> old(self).handles(ticker@, *msg),
            reaction is None ==> *final(self) == *old(self),
            reaction matches Some(r) ==> exists|now: u128| #[trigger]
                old(self).handled(*final(self), now, *config, ticker@, *msg, r),
    {
        if self.can_handle(ticker, msg) {
            let now: u128 = clock::elapsed_nanos(&self.sweep.started);
            Some(self.on_message(now, config, ticker, msg))
        } else {
            None
        }
    }

    /// Whether the position is beyond the largest one allowed.
    fn is_over_limit(&self, config: &Config) -> (over: bool)
        requires
            self.pairs.inventory > i64::MIN,
        ensures
            over == self.over_limit(*config),
    {
        let position: i64 = if self.pairs.inventory < 0 {
            -self.pairs.inventory
        } else {
            self.pairs.inventory
        };
        position > config.max_inventory
    }

    /// Whether trading has to stop.
    fn is_halted(&self, config: &Config) -> (halted: bool)
        requires
            config.daily_loss_cap_cents > i64::MIN,
            self.pairs.inventory > i64::MIN,
        ensures
            halted == self.halted(*config),
    {
        self.pairs.realized_pnl <= -config.daily_loss_cap_cents || self.is_over_limit(config)
    }

    /// Whether `plan` can be called.
    pub fn can_plan(&self, config: &Config) -> (fits: bool)
        ensures
            fits == self.plan_fits(*config),
    {
        if !self.ws_connected || !self.book.initialized {
            return true;
        }
        if config.daily_loss_cap_cents == i64::MIN || self.pairs.inventory == i64::MIN {
            return false;
        }
        if self.is_halted(config) {
            return true;
        }
        quoting::can_compute_desired(&self.book, &self.pairs, &self.tracker, config)
    }

    /// What the round calls for. The bids wanted are remembered.
    pub fn plan(&mut self, config: &Config) -> (plan: Plan)
        requires
            old(self).wf(),
            old(self).plan_fits(*config),
        ensures
            old(self).planned(*final(self), *config, plan),
            final(self).wf(),
    {
        if !self.ws_connected || !self.book.initialized {
            return Plan::Nothing;
        }
        if self.is_halted(config) {
            return Plan::Halt;
        }
        let desired: DesiredOrders = quoting::compute_desired(
            &self.book,
            &self.pairs,
            &self.tracker,
            config,
        );
        if desired.same_as(&self.last_desired) && !self.got_fill && !self.book_changed {
            return Plan::Nothing;
        }
        let actions: Vec<Action> = reconcile::reconcile(&desired, &self.tracker);
        self.last_desired = desired;
        if actions.len() == 0 {
            return Plan::Nothing;
        }
        let (cancels, placements): (Vec<String>, Vec<(Side, i64)>) = split_actions(&actions);
        Plan::Execute { cancels, placements }
    }

    /// These orders have been canceled.
    pub fn canceled(&mut self, ids: &Vec<String>)
        requires
            old(self).wf(),
        ensures
            *final(self) == (Session { tracker: final(self).tracker, ..*old(self) }),
            final(self).tracker.orders@ == tracker::without_all(old(self).tracker.orders@, ids@),
            final(self).wf(),
    {
        self.tracker.remove_each(ids);
    }

    /// An order has been placed at `now`.
    pub fn placed_at(
        &mut self,
        now: u128,
        config: &Config,
        order_id: String,
        side: Side,
        price: i64,
    )
        requires
            old(self).wf(),
        ensures
            old(self).order_placed(*final(self), now, *config, order_id, side, price),
            final(self).wf(),
    {
        self.tracker.insert(
            Order { order_id, side, price, remaining: config.order_size, placed_at: now },
        );
    }

    /// `after` is `self` with an order placed at `now`.
    pub open spec fn order_placed(
        self,
        after: Session,
        now: u128,
        config: Config,
        order_id: String,
        side: Side,
        price: i64,
    ) -> bool {
        &&& after == (Session { tracker: after.tracker, ..self })
        &&& after.tracker.orders@ == tracker::with(
            self.tracker.orders@,
            (Order { order_id, side, price, remaining: config.order_size, placed_at: now }),
        )
    }

    /// An order has been placed at the time of the call.
    pub fn placed(&mut self, config: &Config, order_id: String, side: Side, price: i64)
        requires
            old(self).wf(),
        ensures
            exists|now: u128| #[trigger]
                old(self).order_placed(*final(self), now, *config, order_id, side, price),
            final(self).wf(),
    {
        let now: u128 = clock::elapsed_nanos(&self.sweep.started);
        self.placed_at(now, config, order_id, side, price);
    }

    /// `after` is `self` without the orders that are stale at `now`, whose ids are `ids`.
    pub open spec fn stale_dropped(self, after: Session, now: u128, ids: Seq<String>) -> bool {
        &&& after == (Session { tracker: after.tracker, ..self })
        &&& after.tracker.orders@ == tracker::fresh(self.tracker.orders@, now)
        &&& ids == tracker::ids_of(tracker::stale(self.tracker.orders@, now))
    }

    /// Drops the orders that have gone unconfirmed for more than ten seconds at the time of the call,
    /// and gives their ids.
    pub fn drop_stale(&mut self) -> (ids: Vec<String>)
        requires
            old(self).wf(),
        ensures
            exists|now: u128| #[trigger] old(self).stale_dropped(*final(self), now, ids@),
            final(self).wf(),
    {
        let now: u128 = clock::elapsed_nanos(&self.sweep.started);
        let ids: Vec<String> = self.tracker.drop_stale(now);
        assert(old(self).stale_dropped(*self, now, ids@));
        ids
    }

    /// The ids to cancel when all orders are to go.
    pub fn all_orders(&self) -> (ids: Vec<String>)
        ensures
            ids@ == tracker::ids_of(self.tracker.orders@),
    {
        self.tracker.order_ids()
    }

    /// An attempt to cancel all orders, with this number counted from 0, has ended. Once it has
    /// succeeded, or failed too often, no order is tracked any more.
    pub fn cancel_attempted(&mut self, attempt: u32, ok: bool) -> (step: CancelStep)
        requires
            old(self).wf(),
            attempt < CANCEL_ATTEMPTS,
        ensures
            step == step_after(attempt, ok),
            *final(self) == (Session { tracker: final(self).tracker, ..*old(self) }),
            final(self).tracker.orders@ == if step == CancelStep::Retry {
                old(self).tracker.orders@
            } else {
                seq![]
            },
            final(self).wf(),
    {
        let step: CancelStep = if ok {
            CancelStep::Finished
        } else if attempt + 1 < CANCEL_ATTEMPTS {
            CancelStep::Retry
        } else {
            CancelStep::GiveUp
        };
        if step != CancelStep::Retry {
            self.tracker.remove_all();
        }
        step
    }
}

/// The cancels and the bids of a list of actions, each in their order.
fn split_actions(actions: &Vec<Action>) -> (split: (Vec<String>, Vec<(Side, i64)>))
    ensures
        split.0@ == cancel_ids(actions@),
        split.1@ == bids_in(actions@),
{
    let mut cancels: Vec<String> = Vec::new();
    let mut placements: Vec<(Side, i64)> = Vec::new();
    let mut i: usize = 0;
    assert(actions@.take(0) =~= seq![]);
    while i < actions.len()
        invariant
            i <= actions.len(),
            cancels@ == cancel_ids(actions@.take(i as int)),
            placements@ == bids_in(actions@.take(i as int)),
        decreases actions.len() - i,
    {
        assert(actions@.take(i + 1).drop_last() =~= actions@.take(i as int));
        match &actions[i] {
            Action::Cancel(id) => {
                cancels.push(id.clone());
            },
            Action::Place(side, price) => {
                placements.push((*side, *price));
            },
        }
        i += 1;
    }
    assert(actions@.take(i as int) =~= actions@);
    (cancels, placements)
}

} // verus!
