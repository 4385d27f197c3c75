//! Settings of the bot.

use crate::clock;
use crate::numbers;
use std::time::Duration;
use vstd::prelude::*;

verus! {

/// Settings of the bot.
#[derive(Debug)]
pub struct Config {
    pub api_key_id: String,
    pub private_key_pem: String,
    pub rest_base_url: String,
    pub ws_url: String,
    pub series_ticker: String,
    /// Contracts per order level.
    pub order_size: i64,
    /// How many levels deep on each side: 2 is a bid at the best bid and one a cent below.
    pub grid_levels: i64,
    /// The largest position either way.
    pub max_inventory: i64,
    /// Taker volume within the window above which a falling bid is a sweep.
    pub sweep_volume_threshold: i64,
    /// Length of the window for sweep detection, in milliseconds.
    pub sweep_window_ms: u64,
    pub rate_limit_writes_per_sec: u32,
    pub daily_loss_cap_cents: i64,
    pub rest_timeout: Duration,
    pub market_rotate_before_close_secs: i64,
}

/// The environment variables that the settings are taken from, as far as they are set.
#[derive(Debug)]
pub struct EnvVars {
    /// `SERIES_TICKER`.
    pub series_ticker: Option<String>,
    /// `ORDER_SIZE`.
    pub order_size: Option<String>,
    /// `GRID_LEVELS`.
    pub grid_levels: Option<String>,
    /// `MAX_INVENTORY`.
    pub max_inventory: Option<String>,
    /// `SWEEP_VOLUME`.
    pub sweep_volume: Option<String>,
    /// `SWEEP_WINDOW_MS`.
    pub sweep_window_ms: Option<String>,
    /// `RATE_LIMIT_WPS`.
    pub rate_limit_wps: Option<String>,
    /// `DAILY_LOSS_CAP`.
    pub daily_loss_cap: Option<String>,
    /// `REST_TIMEOUT_MS`.
    pub rest_timeout_ms: Option<String>,
}

/// The number that a variable sets: the one it holds, where it holds one that fits `i64`, and
/// `default` otherwise.
pub open spec fn signed_setting(var: Option<String>, default: int) -> int {
    match var {
        Some(v) => match numbers::in_range(
            numbers::signed_value(v@),
            i64::MIN as int,
            i64::MAX as int,
        ) {
            Some(n) => n,
            None => default,
        },
        None => default,
    }
}

/// The number without sign that a variable sets: the one it holds, where it holds one up to `high`,
/// and `default` otherwise.
pub open spec fn unsigned_setting(var: Option<String>, default: int, high: int) -> int {
    match var {
        Some(v) => match numbers::in_range(numbers::unsigned_value(v@), 0, high) {
            Some(n) => n,
            None => default,
        },
        None => default,
    }
}

/// Reads a setting that may be negative.
fn read_signed(var: &Option<String>, default: i64) -> (value: i64)
    ensures
        value == signed_setting(*var, default as int),
{
    match var {
        Some(v) => match numbers::read_i64(v.as_str()) {
            Some(n) => n,
            None => default,
        },
        None => default,
    }
}

/// Reads a setting without sign.
fn read_unsigned(var: &Option<String>, default: u64) -> (value: u64)
    ensures
        value == unsigned_setting(*var, default as int, u64::MAX as int),
{
    match var {
        Some(v) => match numbers::read_u64(v.as_str()) {
            Some(n) => n,
            None => default,
        },
        None => default,
    }
}

impl Config {
    /// The default settings, with those replaced that the environment sets. A variable that does not
    /// hold a number of the right kind is passed over.
    pub fn from_env(vars: &EnvVars) -> (config: Self)
        ensures
            config.api_key_id@ == ""@,
            config.private_key_pem@ == ""@,
            config.rest_base_url@ == "https://api.elections.kalshi.com/trade-api/v2"@,
            config.ws_url@ == "wss://api.elections.kalshi.com/trade-api/ws/v2"@,
            config.series_ticker@ == match vars.series_ticker {
                Some(v) => v@,
                None => "KXBTC15M"@,
            },
            config.order_size == signed_setting(vars.order_size, 1),
            config.grid_levels == signed_setting(vars.grid_levels, 2),
            config.max_inventory == signed_setting(vars.max_inventory, 3),
            config.sweep_volume_threshold == signed_setting(vars.sweep_volume, 100),
            config.sweep_window_ms == unsigned_setting(vars.sweep_window_ms, 100, u64::MAX as int),
            config.rate_limit_writes_per_sec == unsigned_setting(
                vars.rate_limit_wps,
                28,
                u32::MAX as int,
            ),
            config.daily_loss_cap_cents == signed_setting(vars.daily_loss_cap, 500),
            config.rest_timeout == clock::duration_of_millis(
                unsigned_setting(vars.rest_timeout_ms, 200, u64::MAX as int) as u64,
            ),
            config.market_rotate_before_close_secs == 180,
    {
        let mut config: Config = Config::default();
        if let Some(v) = &vars.series_ticker {
            config.series_ticker = v.clone();
        }
        config.order_size = read_signed(&vars.order_size, config.order_size);
        config.grid_levels = read_signed(&vars.grid_levels, config.grid_levels);
        config.max_inventory = read_signed(&vars.max_inventory, config.max_inventory);
        config.sweep_volume_threshold = read_signed(
            &vars.sweep_volume,
            config.sweep_volume_threshold,
        );
        config.sweep_window_ms = read_unsigned(&vars.sweep_window_ms, config.sweep_window_ms);
        if let Some(v) = &vars.rate_limit_wps {
            if let Some(n) = numbers::read_u32(v.as_str()) {
                config.rate_limit_writes_per_sec = n;
            }
        }
        config.daily_loss_cap_cents = read_signed(
            &vars.daily_loss_cap,
            config.daily_loss_cap_cents,
        );
        config.rest_timeout = clock::duration_from_millis(
            read_unsigned(&vars.rest_timeout_ms, 200),
        );
        config
    }
}

impl Clone for Config {
    fn clone(&self) -> (copy: Self)
        ensures
            copy == *self,
    {
        Config {
            api_key_id: self.api_key_id.clone(),
            private_key_pem: self.private_key_pem.clone(),
            rest_base_url: self.rest_base_url.clone(),
            ws_url: self.ws_url.clone(),
            series_ticker: self.series_ticker.clone(),
            order_size: self.order_size,
            grid_levels: self.grid_levels,
            max_inventory: self.max_inventory,
            sweep_volume_threshold: self.sweep_volume_threshold,
            sweep_window_ms: self.sweep_window_ms,
            rate_limit_writes_per_sec: self.rate_limit_writes_per_sec,
            daily_loss_cap_cents: self.daily_loss_cap_cents,
            rest_timeout: self.rest_timeout,
            market_rotate_before_close_secs: self.market_rotate_before_close_secs,
        }
    }
}

impl Default for Config {
    fn default() -> (config: Self)
        ensures
            config.api_key_id@ == ""@,
            config.private_key_pem@ == ""@,
            config.rest_base_url@ == "https://api.elections.kalshi.com/trade-api/v2"@,
            config.ws_url@ == "wss://api.elections.kalshi.com/trade-api/ws/v2"@,
            config.series_ticker@ == "KXBTC15M"@,
            config.order_size == 1,
            config.grid_levels == 2,
            config.max_inventory == 3,
            config.sweep_volume_threshold == 100,
            config.sweep_window_ms == 100,
            config.rate_limit_writes_per_sec == 28,
            config.daily_loss_cap_cents == 500,
            config.rest_timeout == clock::duration_of_millis(200),
            config.market_rotate_before_close_secs == 180,
    {
        Config {
            api_key_id: "".to_owned(),
            private_key_pem: "".to_owned(),
            rest_base_url: "https://api.elections.kalshi.com/trade-api/v2".to_owned(),
            ws_url: "wss://api.elections.kalshi.com/trade-api/ws/v2".to_owned(),
            series_ticker: "KXBTC15M".to_owned(),
            order_size: 1,
            grid_levels: 2,
            max_inventory: 3,
            sweep_volume_threshold: 100,
            sweep_window_ms: 100,
            rate_limit_writes_per_sec: 28,
            daily_loss_cap_cents: 500,
            rest_timeout: clock::duration_from_millis(200),
            market_rotate_before_close_secs: 180,
        }
    }
}

/// A variable that holds a number in decimal sets it, for every number that the setting can hold; an
/// unset one leaves the default.
pub proof fn law_settings_take_numbers(text: String, n: int, default: int, high: int)
    ensures
        signed_setting(None, default) == default,
        unsigned_setting(None, default, high) == default,
        text@ == numbers::signed_decimal(n) && i64::MIN <= n <= i64::MAX ==> signed_setting(
            Some(text),
            default,
        ) == n,
        text@ == numbers::signed_decimal(n) && 0 <= n <= high ==> unsigned_setting(
            Some(text),
            default,
            high,
        ) == n,
{
    numbers::law_signed_decimal_reads_back(n);
    if n >= 0 {
        numbers::law_decimal_reads_back(n as nat);
        let s = numbers::decimal(n as nat);
        assert forall|i: int| 0 <= i < s.len() implies '0' <= #[trigger] s[i] <= '9' by {
            assert(numbers::is_digit(s[i]));
        }
        numbers::law_what_reads_as_a_number(s);
    }
}

/// A variable that holds a number beyond what the setting can hold, or no number, leaves the default.
pub proof fn law_settings_keep_the_default(text: String, n: int, default: int, high: int)
    ensures
        text@ == numbers::signed_decimal(n) && !(i64::MIN <= n <= i64::MAX) ==> signed_setting(
            Some(text),
            default,
        ) == default,
        text@ == numbers::signed_decimal(n) && n > high ==> unsigned_setting(
            Some(text),
            default,
            high,
        ) == default,
        numbers::signed_value(text@) is None ==> signed_setting(Some(text), default) == default,
        numbers::unsigned_value(text@) is None ==> unsigned_setting(Some(text), default, high)
            == default,
{
    numbers::law_signed_decimal_reads_back(n);
    if n >= 0 {
        numbers::law_decimal_reads_back(n as nat);
        let s = numbers::decimal(n as nat);
        assert forall|i: int| 0 <= i < s.len() implies '0' <= #[trigger] s[i] <= '9' by {
            assert(numbers::is_digit(s[i]));
        }
        numbers::law_what_reads_as_a_number(s);
    } else if text@ == numbers::signed_decimal(n) {
        numbers::law_decimal_reads_back((-n) as nat);
        let s = numbers::decimal((-n) as nat);
        assert forall|i: int| 0 <= i < s.len() implies '0' <= #[trigger] s[i] <= '9' by {
            assert(numbers::is_digit(s[i]));
        }
        numbers::law_what_reads_as_a_number(s);
    }
}

} // verus!
