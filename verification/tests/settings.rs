use kalshi_maker::config::{Config, EnvVars};
use kalshi_maker::dotenv::{parse_env, settings_to_add, white};
use kalshi_maker::numbers::{read_i64, read_u32, read_u64, write_decimal, write_signed};
use kalshi_maker::text::{same_text, starts_with};
use std::time::Duration;

fn no_vars() -> EnvVars {
    EnvVars {
        series_ticker: None,
        order_size: None,
        grid_levels: None,
        max_inventory: None,
        sweep_volume: None,
        sweep_window_ms: None,
        rate_limit_wps: None,
        daily_loss_cap: None,
        rest_timeout_ms: None,
    }
}

fn var(s: &str) -> Option<String> {
    Some(s.to_string())
}

#[test]
fn default_settings() {
    let c = Config::default();
    assert_eq!(c.api_key_id, "");
    assert_eq!(c.private_key_pem, "");
    assert_eq!(c.rest_base_url, "https://api.elections.kalshi.com/trade-api/v2");
    assert_eq!(c.ws_url, "wss://api.elections.kalshi.com/trade-api/ws/v2");
    assert_eq!(c.series_ticker, "KXBTC15M");
    assert_eq!(c.order_size, 1);
    assert_eq!(c.grid_levels, 2);
    assert_eq!(c.max_inventory, 3);
    assert_eq!(c.sweep_volume_threshold, 100);
    assert_eq!(c.sweep_window_ms, 100);
    assert_eq!(c.rate_limit_writes_per_sec, 28);
    assert_eq!(c.daily_loss_cap_cents, 500);
    assert_eq!(c.rest_timeout, Duration::from_millis(200));
    assert_eq!(c.market_rotate_before_close_secs, 180);
}

#[test]
fn nothing_set_gives_the_defaults() {
    let c = Config::from_env(&no_vars());
    assert_eq!(format!("{:?}", c), format!("{:?}", Config::default()));
}

#[test]
fn variables_replace_the_defaults() {
    let c = Config::from_env(&EnvVars {
        series_ticker: var("KXETH"),
        order_size: var("5"),
        grid_levels: var("+4"),
        max_inventory: var("-20"),
        sweep_volume: var("007"),
        sweep_window_ms: var("250"),
        rate_limit_wps: var("10"),
        daily_loss_cap: var("9223372036854775807"),
        rest_timeout_ms: var("1500"),
    });
    assert_eq!(c.series_ticker, "KXETH");
    assert_eq!(c.order_size, 5);
    assert_eq!(c.grid_levels, 4);
    assert_eq!(c.max_inventory, -20);
    assert_eq!(c.sweep_volume_threshold, 7);
    assert_eq!(c.sweep_window_ms, 250);
    assert_eq!(c.rate_limit_writes_per_sec, 10);
    assert_eq!(c.daily_loss_cap_cents, i64::MAX);
    assert_eq!(c.rest_timeout, Duration::from_millis(1500));
    assert_eq!(c.market_rotate_before_close_secs, 180);
    assert_eq!(format!("{:?}", c.clone()), format!("{:?}", c));
}

#[test]
fn variables_that_hold_no_number_are_passed_over() {
    let c = Config::from_env(&EnvVars {
        series_ticker: var(""),
        order_size: var("5 "),
        grid_levels: var(""),
        max_inventory: var("9223372036854775808"),
        sweep_volume: var("1.5"),
        sweep_window_ms: var("-1"),
        rate_limit_wps: var("4294967296"),
        daily_loss_cap: var("--1"),
        rest_timeout_ms: var("fast"),
    });
    assert_eq!(c.series_ticker, "");
    assert_eq!(c.order_size, 1);
    assert_eq!(c.grid_levels, 2);
    assert_eq!(c.max_inventory, 3);
    assert_eq!(c.sweep_volume_threshold, 100);
    assert_eq!(c.sweep_window_ms, 100);
    assert_eq!(c.rate_limit_writes_per_sec, 28);
    assert_eq!(c.daily_loss_cap_cents, 500);
    assert_eq!(c.rest_timeout, Duration::from_millis(200));
}

#[test]
fn numbers_are_read_as_std_reads_them() {
    for s in [
        "", "0", "-0", "+0", "+", "-", "00012", "-00012", "+-1", "-+1", "1_000", " 1", "1 ", "1a",
        "9223372036854775807", "9223372036854775808", "-9223372036854775808",
        "-9223372036854775809", "18446744073709551615", "18446744073709551616",
        "4294967295", "4294967296", "99999999999999999999999999999999999999999999",
        "99999999999999999999999999999999999999999999x", "0x10", "\u{0661}",
    ] {
        assert_eq!(read_i64(s), s.parse::<i64>().ok(), "{:?}", s);
        assert_eq!(read_u64(s), s.parse::<u64>().ok(), "{:?}", s);
        assert_eq!(read_u32(s), s.parse::<u32>().ok(), "{:?}", s);
    }
}

#[test]
fn numbers_are_written_in_decimal_and_read_back() {
    for n in [0, 7, 10, 105, -1, -90, i64::MAX, i64::MIN] {
        let mut text = String::from("n=");
        write_signed(&mut text, n);
        assert_eq!(text, format!("n={}", n));
        assert_eq!(read_i64(&text[2..]), Some(n));
    }
    let mut text = String::new();
    write_decimal(&mut text, u64::MAX);
    assert_eq!(text, "18446744073709551615");
}

#[test]
fn white_space_is_the_unicode_property() {
    for code in 0..0x11_0000u32 {
        if let Some(c) = char::from_u32(code) {
            assert_eq!(white(c), c.is_whitespace(), "{:?}", c);
        }
    }
}

#[test]
fn settings_file_lines() {
    let file = "# a comment\n\nKEY=value\n  SPACED  =  out  \r\nQUOTED = \"a b\"\nEMPTY=\nNO_EQUALS\nTWO=a=b\n=x\n  # indented\nMANY=\"\"\"q\"\"\nINNER=a\"b\nBACK=\" \"";
    let entries = parse_env(file);
    let expected: Vec<(String, String)> = vec![
        ("KEY", "value"),
        ("SPACED", "out"),
        ("QUOTED", "a b"),
        ("EMPTY", ""),
        ("TWO", "a=b"),
        ("", "x"),
        ("MANY", "q"),
        ("INNER", "a\"b"),
        ("BACK", " "),
    ]
    .into_iter()
    .map(|(k, v)| (k.to_string(), v.to_string()))
    .collect();
    assert_eq!(entries, expected);
}

#[test]
fn what_is_set_goes_before_the_file_and_the_first_line_before_later_ones() {
    let list = parse_env("A=1\nB=2\nA=3\nC=4\nB=5\nD=\nD=6");
    let add = settings_to_add(&list, &vec!["B".to_string(), "X".to_string()]);
    let expected: Vec<(String, String)> = vec![("A", "1"), ("C", "4"), ("D", "")]
        .into_iter()
        .map(|(k, v)| (k.to_string(), v.to_string()))
        .collect();
    assert_eq!(add, expected);
    assert_eq!(settings_to_add(&list, &vec![]).len(), 4);
    assert!(settings_to_add(&vec![], &vec!["A".to_string()]).is_empty());
}

#[test]
fn settings_file_matches_std_string_functions() {
    let file = "A=1\r\nB = \u{a0}2\u{3000}\n\u{2003}#x=y\nC=\u{e9}\u{1f600}\"\n\n\nD==\n";
    let mut expected: Vec<(String, String)> = Vec::new();
    for line in file.lines() {
        let line = line.trim();
        if line.is_empty() || line.starts_with('#') {
            continue;
        }
        if let Some((key, value)) = line.split_once('=') {
            expected.push((key.trim().to_string(), value.trim().trim_matches('"').to_string()));
        }
    }
    assert_eq!(parse_env(file), expected);
    assert!(parse_env("").is_empty());
}

#[test]
fn texts_are_compared_character_by_character() {
    assert!(same_text("", ""));
    assert!(same_text("yes", "yes"));
    assert!(!same_text("yes", "yes "));
    assert!(!same_text("Yes", "yes"));
    assert!(starts_with("WS disconnect: gone", "WS disconnect"));
    assert!(starts_with("anything", ""));
    assert!(!starts_with("WS dis", "WS disconnect"));
    assert!(!starts_with("ws disconnect", "WS disconnect"));
}
