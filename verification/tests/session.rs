use kalshi_maker::config::Config;
use kalshi_maker::order_book::Side;
use kalshi_maker::session::{CancelStep, Plan, Reaction, Session, WsMessage};

const TICKER: &str = "KX-A";

fn s(text: &str) -> String {
    text.to_string()
}

fn snapshot(market: &str, seq: u64) -> WsMessage {
    WsMessage::OrderbookSnapshot {
        market_ticker: s(market),
        yes_levels: vec![(40, 10)],
        no_levels: vec![(55, 10)],
        seq,
    }
}

fn delta(side: Side, price: i64, delta: i64, seq: u64) -> WsMessage {
    WsMessage::OrderbookDelta { market_ticker: s(TICKER), side, price, delta, seq }
}

fn trade(taker: &str, count: i64) -> WsMessage {
    WsMessage::Trade { market_ticker: s(TICKER), count, taker_side: s(taker) }
}

fn fill(side: &str, yes_price: i64, count: i64, id: &str, position: i64) -> WsMessage {
    WsMessage::Fill {
        market_ticker: s(TICKER),
        bought: s(side),
        yes_price,
        count,
        order_id: s(id),
        post_position: position,
    }
}

fn tell(session: &mut Session, config: &Config, msg: &WsMessage) -> Reaction {
    session.receive(config, TICKER, msg).unwrap()
}

fn started(config: &Config) -> Session {
    let mut session = Session::new(config, 0);
    session.start_round();
    assert!(matches!(tell(&mut session, config, &snapshot(TICKER, 1)), Reaction::Nothing));
    session
}

fn plan(session: &mut Session, config: &Config) -> Plan {
    assert!(session.can_plan(config));
    session.plan(config)
}

#[test]
fn nothing_is_planned_before_a_snapshot() {
    let config = Config::default();
    let mut session = Session::new(&config, 0);
    assert!(matches!(plan(&mut session, &config), Plan::Nothing));
    tell(&mut session, &config, &WsMessage::Other);
    assert!(session.ws_connected);
    assert!(matches!(plan(&mut session, &config), Plan::Nothing));
    tell(&mut session, &config, &snapshot("KX-B", 1));
    assert!(!session.book.initialized);
    assert!(matches!(plan(&mut session, &config), Plan::Nothing));
}

#[test]
fn a_snapshot_leads_to_quotes() {
    let config = Config::default();
    let mut session = started(&config);
    match plan(&mut session, &config) {
        Plan::Execute { cancels, placements } => {
            assert!(cancels.is_empty());
            assert_eq!(
                placements,
                vec![(Side::Yes, 40), (Side::Yes, 39), (Side::No, 55), (Side::No, 54)]
            );
        }
        other => panic!("{:?}", other),
    }
    assert_eq!(session.last_desired.yes_prices, vec![40, 39]);
}

#[test]
fn a_quiet_round_plans_nothing() {
    let config = Config::default();
    let mut session = started(&config);
    assert!(matches!(plan(&mut session, &config), Plan::Execute { .. }));
    session.start_round();
    assert!(matches!(plan(&mut session, &config), Plan::Nothing));
}

#[test]
fn an_executed_plan_leaves_the_wanted_orders() {
    let mut config = Config::default();
    config.max_inventory = 100;
    let mut session = started(&config);
    session.placed_at(0, &config, s("old"), Side::Yes, 37);
    session.placed_at(0, &config, s("kept"), Side::Yes, 40);
    match plan(&mut session, &config) {
        Plan::Execute { cancels, placements } => {
            assert_eq!(cancels, vec![s("old")]);
            session.canceled(&cancels);
            for (i, (side, price)) in placements.into_iter().enumerate() {
                session.placed_at(0, &config, format!("n{}", i), side, price);
            }
        }
        other => panic!("{:?}", other),
    }
    let mut yes: Vec<i64> =
        session.tracker.orders.iter().filter(|o| o.side == Side::Yes).map(|o| o.price).collect();
    yes.sort();
    assert_eq!(yes, vec![39, 40]);
    assert_eq!(session.tracker.pending_on_side(Side::No), 2);
    session.start_round();
    assert!(matches!(plan(&mut session, &config), Plan::Nothing));
}

#[test]
fn a_sequence_gap_ends_the_session() {
    let config = Config::default();
    let mut session = started(&config);
    assert!(matches!(tell(&mut session, &config, &delta(Side::Yes, 41, 1, 2)), Reaction::Nothing));
    assert_eq!(session.book.best_yes_bid(), 41);
    assert_eq!(session.sweep.prev_yes_bid, 41);
    assert_eq!(session.sweep.prev_no_bid, 55);
    assert!(matches!(
        tell(&mut session, &config, &delta(Side::Yes, 42, 1, 4)),
        Reaction::CancelAllAndEnd
    ));
    assert_eq!(session.book.best_yes_bid(), 41);
}

#[test]
fn messages_of_other_markets_are_ignored() {
    let config = Config::default();
    let mut session = started(&config);
    session.start_round();
    let other = [
        snapshot("KX-B", 9),
        WsMessage::OrderbookDelta {
            market_ticker: s("KX-B"),
            side: Side::Yes,
            price: 50,
            delta: 1,
            seq: 77,
        },
        WsMessage::Trade { market_ticker: s("KX-B"), count: 1000, taker_side: s("no") },
        WsMessage::Fill {
            market_ticker: s("KX-B"),
            bought: s("yes"),
            yes_price: 1,
            count: 1,
            order_id: s("x"),
            post_position: 99,
        },
    ];
    for msg in &other {
        assert!(matches!(tell(&mut session, &config, msg), Reaction::Nothing));
    }
    assert_eq!(session.book.seq, 1);
    assert_eq!(session.pairs.inventory, 0);
    assert!(session.sweep.trades.is_empty());
    assert!(!session.book_changed && !session.got_fill);
}

#[test]
fn a_sweep_pulls_one_side() {
    let mut config = Config::default();
    config.sweep_volume_threshold = 10;
    config.sweep_window_ms = 60_000;
    let mut session = started(&config);
    session.placed_at(0, &config, s("y"), Side::Yes, 40);
    session.placed_at(0, &config, s("n"), Side::No, 55);
    tell(&mut session, &config, &delta(Side::Yes, 36, 5, 2));
    tell(&mut session, &config, &delta(Side::Yes, 40, -10, 3));
    match tell(&mut session, &config, &trade("no", 11)) {
        Reaction::PullQuotes(ids) => {
            assert_eq!(ids, vec![s("y")]);
            session.canceled(&ids);
        }
        other => panic!("{:?}", other),
    }
    assert_eq!(session.tracker.order_ids(), vec![s("n")]);
}

#[test]
fn a_sweep_without_orders_calls_for_nothing() {
    let mut config = Config::default();
    config.sweep_volume_threshold = 10;
    config.sweep_window_ms = 60_000;
    let mut session = started(&config);
    tell(&mut session, &config, &delta(Side::Yes, 36, 5, 2));
    tell(&mut session, &config, &delta(Side::Yes, 40, -10, 3));
    assert!(matches!(tell(&mut session, &config, &trade("no", 11)), Reaction::Nothing));
    assert!(session.sweep.trades.is_empty());
}

#[test]
fn a_fill_is_counted() {
    let config = Config::default();
    let mut session = started(&config);
    session.placed_at(0, &config, s("y"), Side::Yes, 40);
    let reaction = tell(&mut session, &config, &fill("yes", 40, 1, "y", 1));
    assert!(matches!(reaction, Reaction::Nothing));
    assert!(session.got_fill);
    assert!(session.tracker.orders.is_empty());
    assert_eq!(session.pairs.inventory, 1);
    tell(&mut session, &config, &fill("no", 45, 1, "z", 0));
    assert_eq!(session.pairs.realized_pnl, 5);
}

#[test]
fn the_hard_cap_cancels_all() {
    let config = Config::default();
    let mut session = started(&config);
    assert!(matches!(tell(&mut session, &config, &fill("no", 45, 3, "z", -3)), Reaction::Nothing));
    assert!(matches!(tell(&mut session, &config, &fill("no", 45, 1, "z", -4)), Reaction::CancelAll));
    assert!(matches!(tell(&mut session, &config, &fill("yes", 45, 8, "z", 4)), Reaction::CancelAll));
}

#[test]
fn the_hard_cap_halts_until_a_fill_brings_the_position_back() {
    let config = Config::default();
    let mut session = Session::new(&config, 0);
    let book = WsMessage::OrderbookSnapshot {
        market_ticker: s(TICKER),
        yes_levels: vec![(45, 10)],
        no_levels: vec![(50, 10)],
        seq: 1,
    };
    tell(&mut session, &config, &book);
    assert!(matches!(tell(&mut session, &config, &fill("yes", 45, 5, "y", 5)), Reaction::CancelAll));
    assert!(matches!(plan(&mut session, &config), Plan::Halt));
    session.start_round();
    tell(&mut session, &config, &delta(Side::Yes, 46, 1, 2));
    assert!(matches!(plan(&mut session, &config), Plan::Halt));
    assert!(matches!(tell(&mut session, &config, &fill("no", 45, 2, "n", 3)), Reaction::Nothing));
    assert!(matches!(plan(&mut session, &config), Plan::Execute { .. }));
}

#[test]
fn a_start_beyond_the_limit_halts() {
    let config = Config::default();
    let mut session = Session::new(&config, -4);
    tell(&mut session, &config, &snapshot(TICKER, 1));
    assert!(matches!(plan(&mut session, &config), Plan::Halt));
}

#[test]
fn the_loss_cap_halts() {
    let config = Config::default();
    let mut session = started(&config);
    session.pairs.realized_pnl = -499;
    assert!(matches!(plan(&mut session, &config), Plan::Execute { .. }));
    session.pairs.realized_pnl = -500;
    assert!(matches!(plan(&mut session, &config), Plan::Halt));
    tell(&mut session, &config, &delta(Side::Yes, 41, 1, 2));
    assert!(matches!(plan(&mut session, &config), Plan::Halt));
}

#[test]
fn gone_orders_are_forgotten() {
    let config = Config::default();
    let mut session = started(&config);
    for id in ["a", "b", "c"] {
        session.placed_at(0, &config, s(id), Side::Yes, 40);
    }
    let status = |id: &str, status: &str| WsMessage::UserOrder { order_id: s(id), status: s(status) };
    tell(&mut session, &config, &status("a", "resting"));
    assert_eq!(session.tracker.orders.len(), 3);
    tell(&mut session, &config, &status("a", "canceled"));
    tell(&mut session, &config, &status("b", "executed"));
    assert_eq!(session.all_orders(), vec![s("c")]);
}

#[test]
fn a_lost_connection_starts_over() {
    let config = Config::default();
    let mut session = started(&config);
    let other = WsMessage::Error { message: s("bad request") };
    assert!(matches!(tell(&mut session, &config, &other), Reaction::Nothing));
    let lost = WsMessage::Error { message: s("WS disconnected, retrying") };
    assert!(matches!(tell(&mut session, &config, &lost), Reaction::CancelAll));
    assert!(!session.ws_connected);
    assert!(!session.book.initialized);
    assert_eq!(session.book.best_yes_bid(), 0);
    assert!(matches!(plan(&mut session, &config), Plan::Nothing));
    tell(&mut session, &config, &snapshot(TICKER, 30));
    assert!(matches!(plan(&mut session, &config), Plan::Execute { .. }));
}

#[test]
fn cancel_all_is_tried_three_times() {
    let config = Config::default();
    let mut session = started(&config);
    session.placed_at(0, &config, s("a"), Side::Yes, 40);
    assert_eq!(session.cancel_attempted(0, false), CancelStep::Retry);
    assert_eq!(session.cancel_attempted(1, false), CancelStep::Retry);
    assert_eq!(session.tracker.orders.len(), 1);
    assert_eq!(session.cancel_attempted(2, false), CancelStep::GiveUp);
    assert!(session.tracker.orders.is_empty());
    session.placed_at(0, &config, s("a"), Side::Yes, 40);
    assert_eq!(session.cancel_attempted(1, true), CancelStep::Finished);
    assert!(session.tracker.orders.is_empty());
}

#[test]
fn orders_placed_now_are_not_stale() {
    let config = Config::default();
    let mut session = started(&config);
    session.placed(&config, s("a"), Side::No, 55);
    assert_eq!(session.tracker.orders[0].remaining, 1);
    assert_eq!(session.tracker.orders[0].price, 55);
    assert!(session.drop_stale().is_empty());
    assert_eq!(session.tracker.orders.len(), 1);
}

#[test]
fn messages_that_leave_the_range_change_nothing() {
    let config = Config::default();
    let mut session = started(&config);
    assert!(session.receive(&config, TICKER, &fill("yes", 40, 1, "y", i64::MIN)).is_none());
    assert!(session.receive(&config, TICKER, &delta(Side::Yes, 40, i64::MAX, 2)).is_none());
    assert!(!session.got_fill);
    assert_eq!(session.book.seq, 1);
    assert!(!session.can_handle(TICKER, &fill("yes", 40, 1, "y", i64::MIN)));
    assert!(session.can_handle("KX-B", &fill("yes", 40, 1, "y", i64::MIN)));
    assert!(session.can_handle(TICKER, &trade("yes", i64::MAX)));
    tell(&mut session, &config, &snapshot(TICKER, u64::MAX));
    assert!(session.receive(&config, TICKER, &delta(Side::Yes, 40, 1, 5)).is_none());
}

#[test]
fn plans_that_leave_the_range_are_noticed() {
    let mut config = Config::default();
    let mut session = started(&config);
    session.pairs.inventory = i64::MIN;
    assert!(!session.can_plan(&config));
    session.pairs.inventory = 0;
    config.daily_loss_cap_cents = i64::MIN;
    assert!(!session.can_plan(&config));
}

#[test]
fn plans_respect_the_position_limit() {
    let mut config = Config::default();
    config.grid_levels = 9;
    let mut session = started(&config);
    session.placed_at(0, &config, s("y"), Side::Yes, 10);
    match plan(&mut session, &config) {
        Plan::Execute { placements, .. } => {
            let yes = placements.iter().filter(|p| p.0 == Side::Yes).count();
            let no = placements.iter().filter(|p| p.0 == Side::No).count();
            assert_eq!((yes, no), (2, 3));
            assert!(placements.iter().all(|p| p.1 >= 1 && p.1 <= 99));
        }
        other => panic!("{:?}", other),
    }
}

#[test]
fn trades_count_within_the_window_alone() {
    let mut config = Config::default();
    config.sweep_volume_threshold = 10;
    let mut session = started(&config);
    session.placed_at(0, &config, s("n"), Side::No, 55);
    tell(&mut session, &config, &delta(Side::No, 50, 5, 2));
    tell(&mut session, &config, &delta(Side::No, 55, -8, 3));
    let msg = trade("yes", 6);
    assert!(matches!(session.on_message(0, &config, TICKER, &msg), Reaction::Nothing));
    assert!(matches!(session.on_message(200_000_000, &config, TICKER, &msg), Reaction::Nothing));
    assert_eq!(session.sweep.trades, vec![(200_000_000, true, 6)]);
    tell(&mut session, &config, &delta(Side::No, 55, -2, 4));
    match session.on_message(300_000_000, &config, TICKER, &msg) {
        Reaction::PullQuotes(ids) => assert_eq!(ids, vec![s("n")]),
        other => panic!("{:?}", other),
    }
}
