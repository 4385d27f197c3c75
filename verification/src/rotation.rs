//! When to leave a market: some time before it closes.

use crate::book_side;
use vstd::prelude::*;

verus! {

/// A point in time in UTC.
#[derive(Debug, Clone, Copy, PartialEq, Eq, Structural)]
pub struct UtcTime {
    /// Seconds since the start of 1970, leap seconds not counted.
    pub secs: i64,
    /// Nanoseconds since that second. A second or more stands for a leap second.
    pub nanos: u32,
}

impl UtcTime {
    /// Within the years -262143 to 262142, and in a leap second only where there can be one.
    pub open spec fn valid(self) -> bool {
        &&& -8_334_601_228_800 <= self.secs <= 8_210_266_876_799
        &&& self.nanos < 2_000_000_000
        &&& self.nanos >= 1_000_000_000 ==> self.secs % 60 == 59
    }
}

/// The whole seconds in a number of nanoseconds, rounded towards zero.
pub open spec fn whole_seconds(nanos: int) -> int {
    if nanos >= 0 {
        nanos / 1_000_000_000
    } else {
        -((-nanos) / 1_000_000_000)
    }
}

/// The time that a text in the form of RFC 3339 stands for, as seconds and nanoseconds; `None` where
/// `DateTime::parse_from_rfc3339` takes it for no such text.
pub uninterp spec fn rfc3339_time(text: Seq<char>) -> Option<(i64, u32)>;

/// Seconds in a day.
pub const SECS_PER_DAY: i64 = 86_400;

/// The leap second between two times that their seconds do not count: one is counted where the
/// earlier time lies in it and the later one stands later in the day, or the other way round.
pub open spec fn leap_between(later: UtcTime, earlier: UtcTime) -> int {
    let later_in_day = later.secs as int % SECS_PER_DAY as int;
    let earlier_in_day = earlier.secs as int % SECS_PER_DAY as int;
    if later_in_day > earlier_in_day && earlier.nanos >= 1_000_000_000 {
        1
    } else if later_in_day < earlier_in_day && later.nanos >= 1_000_000_000 {
        -1
    } else {
        0
    }
}

/// The whole seconds from the earlier time to the later one, rounded towards zero.
pub open spec fn seconds_apart(later: UtcTime, earlier: UtcTime) -> int {
    whole_seconds(
        (later.secs - earlier.secs + leap_between(later, earlier)) * 1_000_000_000 + later.nanos
            - earlier.nanos,
    )
}

/// Calls `chrono::DateTime::parse_from_rfc3339` and gives the time in UTC. Claimed is that the same
/// text gives the same time, and that the time is one that `chrono` can hold.
#[verifier::external_body]
fn parse_rfc3339(text: &str) -> (time: Option<UtcTime>)
    ensures
        match time {
            Some(t) => rfc3339_time(text@) == Some((t.secs, t.nanos)),
            None => rfc3339_time(text@) is None,
        },
        time matches Some(t) ==> t.valid(),
{
    match chrono::DateTime::parse_from_rfc3339(text) {
        Ok(t) => Some(UtcTime { secs: t.timestamp(), nanos: t.timestamp_subsec_nanos() }),
        Err(_) => None,
    }
}

/// Calls `chrono::Utc::now`. The result is the time of the call; claimed is only that it is one that
/// `chrono` can hold.
#[verifier::external_body]
fn utc_now() -> (now: UtcTime)
    ensures
        now.valid(),
{
    let now = chrono::Utc::now();
    UtcTime { secs: now.timestamp(), nanos: now.timestamp_subsec_nanos() }
}

/// Subtracts two `chrono::DateTime`s and calls `chrono::TimeDelta::num_seconds`. Claimed is that the
/// result is their difference in whole seconds, rounded towards zero, with a leap second counted that
/// one of them lies in.
#[verifier::external_body]
fn seconds_between(later: UtcTime, earlier: UtcTime) -> (seconds: i64)
    requires
        later.valid(),
        earlier.valid(),
    ensures
        seconds == seconds_apart(later, earlier),
{
    let later = chrono::DateTime::from_timestamp(later.secs, later.nanos).unwrap();
    let earlier = chrono::DateTime::from_timestamp(earlier.secs, earlier.nanos).unwrap();
    (later - earlier).num_seconds()
}

/// Whether so few seconds are left that the market is to be left: none of them counts as zero.
pub open spec fn is_due(seconds_left: int, before_close: int) -> bool {
    book_side::max_of(seconds_left, 0) <= before_close
}

/// Whether a market that closes at `close` is to be left at `now`.
pub open spec fn due_at(close: UtcTime, now: UtcTime, before_close: i64) -> bool {
    is_due(seconds_apart(close, now), before_close as int)
}

/// The closing time of a market, where it has one that can be read.
pub fn closing_time(close_time: &Option<String>) -> (close: Option<UtcTime>)
    ensures
        match (close, *close_time) {
            (Some(t), Some(text)) => rfc3339_time(text@) == Some((t.secs, t.nanos)),
            (Some(t), None) => false,
            (None, Some(text)) => rfc3339_time(text@) is None,
            (None, None) => true,
        },
        close matches Some(t) ==> t.valid(),
{
    match close_time {
        Some(text) => parse_rfc3339(text.as_str()),
        None => None,
    }
}

/// Whether the market is to be left, with this many seconds until it closes.
pub fn rotation_due(seconds_left: i64, before_close: i64) -> (due: bool)
    ensures
        due == is_due(seconds_left as int, before_close as int),
{
    let left: i64 = if seconds_left > 0 {
        seconds_left
    } else {
        0
    };
    left <= before_close
}

/// Whether the market is to be left at `now`.
pub fn should_rotate_at(close: &Option<UtcTime>, now: UtcTime, before_close: i64) -> (due: bool)
    requires
        close matches Some(t) ==> t.valid(),
        now.valid(),
    ensures
        match close {
            Some(t) => due == due_at(*t, now, before_close),
            None => !due,
        },
{
    match close {
        Some(t) => rotation_due(seconds_between(*t, now), before_close),
        None => false,
    }
}

/// Whether the market is to be left now.
pub fn should_rotate(close: &Option<UtcTime>, before_close: i64) -> (due: bool)
    requires
        close matches Some(t) ==> t.valid(),
    ensures
        match close {
            Some(t) => exists|now: UtcTime|
                now.valid() && due == #[trigger] due_at(*t, now, before_close),
            None => !due,
        },
{
    let now: UtcTime = utc_now();
    should_rotate_at(close, now, before_close)
}

/// A market that is to be left stays one that is to be left as time goes on.
pub proof fn law_rotation_stays_due(left: int, later_left: int, before_close: int)
    requires
        later_left <= left,
        is_due(left, before_close),
    ensures
        is_due(later_left, before_close),
{
}

/// A market past its closing time is to be left, unless `before_close` is negative.
pub proof fn law_closed_market_is_left(left: int, before_close: int)
    requires
        left <= 0,
        before_close >= 0,
    ensures
        is_due(left, before_close),
{
}

/// A market is left at the first nanosecond with less than a second more than `before_close` to go,
/// and from then on: for times that lie in no leap second. A negative `before_close` never has it
/// left.
pub proof fn law_market_is_left_in_time(close: UtcTime, now: UtcTime, before_close: i64)
    requires
        close.nanos < 1_000_000_000,
        now.nanos < 1_000_000_000,
    ensures
        before_close >= 0 ==> (due_at(close, now, before_close) <==> close.secs * 1_000_000_000
            + close.nanos < now.secs * 1_000_000_000 + now.nanos + (before_close + 1)
            * 1_000_000_000),
        before_close < 0 ==> !due_at(close, now, before_close),
{
}

/// A leap second that one of the times lies in is counted as one more second apart.
pub proof fn law_leap_second_counts(close: UtcTime, now: UtcTime, before_close: i64)
    requires
        before_close >= 0,
        close.nanos < 1_000_000_000 <= now.nanos < 2_000_000_000,
        close.secs % 86_400 > now.secs % 86_400,
    ensures
        due_at(close, now, before_close) <==> close.secs * 1_000_000_000 + close.nanos < now.secs
            * 1_000_000_000 + now.nanos + before_close * 1_000_000_000,
{
}

/// The time left shrinks by a second with every second that passes, rounded towards zero.
pub proof fn law_whole_seconds(nanos: int)
    ensures
        nanos >= 0 ==> whole_seconds(nanos) * 1_000_000_000 <= nanos < (whole_seconds(nanos) + 1)
            * 1_000_000_000,
        nanos <= 0 ==> (whole_seconds(nanos) - 1) * 1_000_000_000 < nanos <= whole_seconds(nanos)
            * 1_000_000_000,
        whole_seconds(-nanos) == -whole_seconds(nanos),
{
}

} // verus!
