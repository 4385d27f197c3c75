use kalshi_maker::order_book::Side;
use kalshi_maker::rate::{refill_due, refill_interval_micros};
use kalshi_maker::rest::{
    batch_cancel_url, cancel_request, count_text, orders_url, place_request,
    place_request_with_id, position_for, positions_url, price_dollars, side_from_name, side_name,
    Pos,
};

#[test]
fn yes_order_carries_a_yes_price() {
    let r = place_request_with_id("KX-1", Side::Yes, 45, 3, "id-1".to_string());
    assert_eq!(r.ticker, "KX-1");
    assert_eq!(r.side, "yes");
    assert_eq!(r.action, "buy");
    assert_eq!(r.client_order_id, "id-1");
    assert_eq!(r.count_fp, "3.00");
    assert_eq!(r.yes_price_dollars, Some("0.4500".to_string()));
    assert_eq!(r.no_price_dollars, None);
    assert_eq!(r.order_type, "limit");
    assert_eq!(r.time_in_force, "good_till_canceled");
    assert!(r.post_only);
    assert!(r.cancel_order_on_pause);
}

#[test]
fn no_order_carries_a_no_price() {
    let r = place_request_with_id("KX-1", Side::No, 7, 12, "id-2".to_string());
    assert_eq!(r.side, "no");
    assert_eq!(r.yes_price_dollars, None);
    assert_eq!(r.no_price_dollars, Some("0.0700".to_string()));
    assert_eq!(r.count_fp, "12.00");
}

#[test]
fn each_request_has_an_id_of_its_own() {
    let a = place_request("KX-1", Side::Yes, 45, 1);
    let b = place_request("KX-1", Side::Yes, 45, 1);
    assert_ne!(a.client_order_id, b.client_order_id);
    let id = uuid::Uuid::parse_str(&a.client_order_id).unwrap();
    assert_eq!(id.get_version_num(), 4);
    assert_eq!(a.client_order_id.len(), 36);
    let chars: Vec<char> = a.client_order_id.chars().collect();
    assert_eq!((chars[8], chars[13], chars[18], chars[23], chars[14]), ('-', '-', '-', '-', '4'));
    assert_eq!(a.yes_price_dollars, Some("0.4500".to_string()));
}

#[test]
fn prices_are_written_as_a_double_would_be() {
    for cents in -1200..1200i64 {
        assert_eq!(price_dollars(cents), format!("{:.4}", cents as f64 / 100.0));
    }
    for cents in [9_999_999_999_999i64, 10_000_000_000_000, -10_000_000_000_000, 8_234_567_890_123] {
        assert_eq!(price_dollars(cents), format!("{:.4}", cents as f64 / 100.0));
    }
}

#[test]
fn counts_have_two_decimals() {
    assert_eq!(count_text(0), "0.00");
    assert_eq!(count_text(1), "1.00");
    assert_eq!(count_text(-25), "-25.00");
    assert_eq!(count_text(i64::MIN), "-9223372036854775808.00");
}

#[test]
fn cancel_of_nothing_is_not_sent() {
    assert!(cancel_request(&vec![]).is_none());
    let ids = vec!["a".to_string(), "b".to_string()];
    assert_eq!(cancel_request(&ids).unwrap().orders, ids);
}

#[test]
fn first_position_of_the_market_counts() {
    let pos = |t: &str, p: i64| Pos { ticker: t.to_string(), position: p };
    let list = vec![pos("A", 1), pos("B", -2), pos("B", 5)];
    assert_eq!(position_for(&list, "B"), -2);
    assert_eq!(position_for(&list, "A"), 1);
    assert_eq!(position_for(&list, "C"), 0);
    assert_eq!(position_for(&vec![], "A"), 0);
}

#[test]
fn addresses() {
    assert_eq!(orders_url("http://h"), "http://h/portfolio/orders");
    assert_eq!(batch_cancel_url("http://h"), "http://h/portfolio/orders/batched");
    assert_eq!(positions_url("http://h", "KX"), "http://h/portfolio/positions?ticker=KX");
}

#[test]
fn sides_have_words() {
    assert_eq!(side_name(Side::Yes), "yes");
    assert_eq!(side_name(Side::No), "no");
    assert_eq!(side_from_name(side_name(Side::Yes)), Side::Yes);
    assert_eq!(side_from_name(side_name(Side::No)), Side::No);
    assert_eq!(side_from_name("YES"), Side::No);
    assert_eq!(side_from_name(""), Side::No);
}

#[test]
fn permits_come_back_at_the_rate() {
    assert_eq!(refill_interval_micros(28), 35_714);
    assert_eq!(refill_interval_micros(1), 1_000_000);
    assert_eq!(refill_interval_micros(2_000_000), 0);
    assert!(refill_due(27, 28));
    assert!(!refill_due(28, 28));
    assert!(!refill_due(29, 28));
}

#[test]
fn permits_stay_within_the_rate() {
    let mut available = 0usize;
    for _ in 0..100 {
        if refill_due(available, 28) {
            available += 1;
        }
    }
    assert_eq!(available, 28);
}
