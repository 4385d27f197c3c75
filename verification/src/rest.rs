//! Requests to the exchange.

use crate::numbers;
use crate::order_book::Side;
use crate::text;
use vstd::prelude::*;
use vstd::string::StringExecFns;

verus! {

/// A limit order that only makes: what the exchange is sent to place one.
#[derive(Debug)]
pub struct PlaceReq {
    pub ticker: String,
    pub side: String,
    pub action: String,
    pub client_order_id: String,
    /// The number of contracts, with two decimals.
    pub count_fp: String,
    /// The price in dollars with four decimals, of a YES order.
    pub yes_price_dollars: Option<String>,
    /// The price in dollars with four decimals, of a NO order.
    pub no_price_dollars: Option<String>,
    pub order_type: String,
    pub time_in_force: String,
    pub post_only: bool,
    pub cancel_order_on_pause: bool,
}

/// What the exchange is sent to cancel several orders at once.
#[derive(Debug)]
pub struct BatchCancelReq {
    /// The ids of the orders.
    pub orders: Vec<String>,
}

/// The position in one market, as the exchange reports it.
#[derive(Debug)]
pub struct Pos {
    pub ticker: String,
    pub position: i64,
}

/// The largest price, in cents, that is written in dollars.
pub const MAX_PRICED_CENTS: i64 = 10_000_000_000_000;

/// The word for a side.
pub open spec fn side_word(side: Side) -> Seq<char> {
    match side {
        Side::Yes => "yes"@,
        Side::No => "no"@,
    }
}

/// The side that a word stands for: NO for every word but "yes".
pub open spec fn word_side(word: Seq<char>) -> Side {
    if word == "yes"@ {
        Side::Yes
    } else {
        Side::No
    }
}

/// Cents, written in dollars with four decimals.
pub open spec fn dollars(cents: int) -> Seq<char> {
    let size = if cents < 0 {
        -cents
    } else {
        cents
    };
    let sign: Seq<char> = if cents < 0 {
        seq!['-']
    } else {
        seq![]
    };
    sign + numbers::decimal((size / 100) as nat) + seq![
        '.',
        numbers::digit(size / 10 % 10),
        numbers::digit(size % 10),
        '0',
        '0',
    ]
}

/// The request that places `count` contracts of `side` at `price` under this id.
pub open spec fn is_place_req(
    req: PlaceReq,
    ticker: Seq<char>,
    side: Side,
    price: i64,
    count: i64,
    client_order_id: Seq<char>,
) -> bool {
    &&& req.ticker@ == ticker
    &&& req.side@ == side_word(side)
    &&& req.action@ == "buy"@
    &&& req.client_order_id@ == client_order_id
    &&& req.count_fp@ == numbers::signed_decimal(count as int) + ".00"@
    &&& req.order_type@ == "limit"@
    &&& req.time_in_force@ == "good_till_canceled"@
    &&& req.post_only
    &&& req.cancel_order_on_pause
    &&& match side {
        Side::Yes => req.no_price_dollars is None && req.yes_price_dollars is Some
            && req.yes_price_dollars->0@ == dollars(price as int),
        Side::No => req.yes_price_dollars is None && req.no_price_dollars is Some
            && req.no_price_dollars->0@ == dollars(price as int),
    }
}

/// The position in the market `ticker`: the first one listed for it, 0 without one.
pub open spec fn position_in(positions: Seq<Pos>, ticker: Seq<char>) -> i64
    decreases positions.len(),
{
    if positions.len() == 0 {
        0
    } else if positions[0].ticker@ == ticker {
        positions[0].position
    } else {
        position_in(positions.skip(1), ticker)
    }
}

/// What every random id looks like: 36 characters, with hyphens in four places and the version in one.
pub open spec fn is_random_id(id: Seq<char>) -> bool {
    &&& id.len() == 36
    &&& id[8] == '-' && id[13] == '-' && id[18] == '-' && id[23] == '-'
    &&& id[14] == '4'
}

/// Calls `uuid::Uuid::new_v4` and writes the id in its usual form. The result is random; claimed is
/// what holds of every such id: 36 characters, with hyphens in four places and the version in one.
#[verifier::external_body]
fn random_id() -> (id: String)
    ensures
        is_random_id(id@),
{
    uuid::Uuid::new_v4().to_string()
}

/// The word for a side.
pub fn side_name(side: Side) -> (word: &'static str)
    ensures
        word@ == side_word(side),
{
    match side {
        Side::Yes => "yes",
        Side::No => "no",
    }
}

/// The side that a word stands for: NO for every word but "yes".
pub fn side_from_name(word: &str) -> (side: Side)
    ensures
        side == word_side(word@),
{
    if text::same_text(word, "yes") {
        Side::Yes
    } else {
        Side::No
    }
}

/// Writes cents in dollars with four decimals.
pub fn price_dollars(cents: i64) -> (text: String)
    requires
        -MAX_PRICED_CENTS <= cents <= MAX_PRICED_CENTS,
    ensures
        text@ == dollars(cents as int),
{
    let mut text: String = String::new();
    let size: u64 = if cents < 0 {
        (-cents) as u64
    } else {
        cents as u64
    };
    proof {
        reveal_strlit("");
        reveal_strlit("-");
        reveal_strlit(".");
        reveal_strlit("00");
        assert("-"@ =~= seq!['-']);
        assert("."@ =~= seq!['.']);
        assert("00"@ =~= seq!['0', '0']);
    }
    if cents < 0 {
        text.append("-");
    }
    numbers::write_decimal(&mut text, size / 100);
    text.append(".");
    numbers::write_decimal(&mut text, size / 10 % 10);
    numbers::write_decimal(&mut text, size % 10);
    text.append("00");
    assert(text@ =~= dollars(cents as int));
    text
}

/// Writes a number of contracts with two decimals.
pub fn count_text(count: i64) -> (text: String)
    ensures
        text@ == numbers::signed_decimal(count as int) + ".00"@,
{
    let mut text: String = String::new();
    numbers::write_signed(&mut text, count);
    text.append(".00");
    assert(text@ =~= numbers::signed_decimal(count as int) + ".00"@);
    text
}

/// The request that places `count` contracts of `side` at `price` cents under this id.
pub fn place_request_with_id(
    ticker: &str,
    side: Side,
    price: i64,
    count: i64,
    client_order_id: String,
) -> (req: PlaceReq)
    requires
        -MAX_PRICED_CENTS <= price <= MAX_PRICED_CENTS,
    ensures
        is_place_req(req, ticker@, side, price, count, client_order_id@),
{
    let (yes_price_dollars, no_price_dollars): (Option<String>, Option<String>) = match side {
        Side::Yes => (Some(price_dollars(price)), None),
        Side::No => (None, Some(price_dollars(price))),
    };
    PlaceReq {
        ticker: ticker.to_owned(),
        side: side_name(side).to_owned(),
        action: "buy".to_owned(),
        client_order_id,
        count_fp: count_text(count),
        yes_price_dollars,
        no_price_dollars,
        order_type: "limit".to_owned(),
        time_in_force: "good_till_canceled".to_owned(),
        post_only: true,
        cancel_order_on_pause: true,
    }
}

/// The request that places `count` contracts of `side` at `price` cents, under a new random id.
pub fn place_request(ticker: &str, side: Side, price: i64, count: i64) -> (req: PlaceReq)
    requires
        -MAX_PRICED_CENTS <= price <= MAX_PRICED_CENTS,
    ensures
        is_place_req(req, ticker@, side, price, count, req.client_order_id@),
        is_random_id(req.client_order_id@),
{
    place_request_with_id(ticker, side, price, count, random_id())
}

/// The request that cancels these orders; none is made for no orders.
pub fn cancel_request(ids: &Vec<String>) -> (req: Option<BatchCancelReq>)
    ensures
        req is Some <==> ids@.len() > 0,
        req matches Some(r) ==> r.orders@ == ids@,
{
    if ids.len() == 0 {
        return None;
    }
    let mut orders: Vec<String> = Vec::new();
    let mut i: usize = 0;
    while i < ids.len()
        invariant
            i <= ids.len(),
            orders@ == ids@.take(i as int),
        decreases ids.len() - i,
    {
        orders.push(ids[i].clone());
        assert(ids@.take(i + 1) =~= ids@.take(i as int).push(ids@[i as int]));
        i += 1;
    }
    assert(ids@.take(i as int) =~= ids@);
    Some(BatchCancelReq { orders })
}

/// The position in the market `ticker`: the first one listed for it, 0 without one.
pub fn position_for(positions: &Vec<Pos>, ticker: &str) -> (position: i64)
    ensures
        position == position_in(positions@, ticker@),
{
    let mut i: usize = 0;
    assert(positions@.skip(0) =~= positions@);
    while i < positions.len()
        invariant
            i <= positions.len(),
            position_in(positions@, ticker@) == position_in(positions@.skip(i as int), ticker@),
        decreases positions.len() - i,
    {
        assert(positions@.skip(i as int).skip(1) =~= positions@.skip(i + 1));
        if text::same_text(positions[i].ticker.as_str(), ticker) {
            return positions[i].position;
        }
        i += 1;
    }
    0
}

/// A text behind another.
fn joined(a: &str, b: &str) -> (text: String)
    ensures
        text@ == a@ + b@,
{
    let mut text: String = a.to_owned();
    text.append(b);
    text
}

/// Where orders are placed.
pub fn orders_url(base: &str) -> (url: String)
    ensures
        url@ == base@ + "/portfolio/orders"@,
{
    joined(base, "/portfolio/orders")
}

/// Where orders are canceled.
pub fn batch_cancel_url(base: &str) -> (url: String)
    ensures
        url@ == base@ + "/portfolio/orders/batched"@,
{
    joined(base, "/portfolio/orders/batched")
}

/// Where the position in one market is asked for.
pub fn positions_url(base: &str, ticker: &str) -> (url: String)
    ensures
        url@ == base@ + "/portfolio/positions?ticker="@ + ticker@,
{
    let mut url: String = joined(base, "/portfolio/positions?ticker=");
    url.append(ticker);
    url
}

/// The word for a side is read as that side.
pub proof fn law_side_words_read_back(side: Side)
    ensures
        word_side(side_word(side)) == side,
{
    reveal_strlit("yes");
    reveal_strlit("no");
    assert("yes"@.len() != "no"@.len());
}

/// A price below a dollar is written as `0.`, its two digits and two zeros.
pub proof fn law_cent_prices(cents: int)
    requires
        0 <= cents <= 99,
    ensures
        dollars(cents) == seq![
            '0',
            '.',
            numbers::digit(cents / 10),
            numbers::digit(cents % 10),
            '0',
            '0',
        ],
{
    assert(numbers::decimal(0) == seq!['0']);
    assert(dollars(cents) =~= seq![
        '0',
        '.',
        numbers::digit(cents / 10),
        numbers::digit(cents % 10),
        '0',
        '0',
    ]);
}

/// A price in dollars is worth its cents: sign, whole dollars, a point and four decimals, which
/// together read as a hundred times the cents.
pub proof fn law_dollars_are_worth_the_cents(cents: int)
    ensures
        ({
            let text = dollars(cents);
            let start = if cents < 0 {
                1int
            } else {
                0
            };
            let point = text.len() - 5;
            &&& point > start
            &&& text[point] == '.'
            &&& cents < 0 ==> text[0] == '-'
            &&& forall|i: int| start <= i < text.len() && i != point ==> '0' <= #[trigger] text[i] <= '9'
            &&& numbers::digits_value(text.subrange(start, point)) * 10_000
                + numbers::digits_value(text.subrange(point + 1, text.len() as int)) == if cents
                < 0 {
                -cents * 100
            } else {
                cents * 100
            }
        }),
{
    let size = if cents < 0 {
        -cents
    } else {
        cents
    };
    let sign: Seq<char> = if cents < 0 {
        seq!['-']
    } else {
        seq![]
    };
    let whole = numbers::decimal((size / 100) as nat);
    let a = numbers::digit(size / 10 % 10);
    let b = numbers::digit(size % 10);
    let text = dollars(cents);
    let start = sign.len() as int;
    let point = start + whole.len();
    numbers::law_decimal_reads_back((size / 100) as nat);
    assert(text.subrange(start, point) =~= whole);
    let none: Seq<char> = seq![];
    let decimals = none.push(a).push(b).push('0').push('0');
    assert(text.subrange(point + 1, text.len() as int) =~= decimals);
    numbers::law_digit_by_digit(none, a);
    numbers::law_digit_by_digit(none.push(a), b);
    numbers::law_digit_by_digit(none.push(a).push(b), '0');
    numbers::law_digit_by_digit(none.push(a).push(b).push('0'), '0');
    assert forall|i: int| start <= i < text.len() && i != point implies '0' <= #[trigger] text[i]
        <= '9' by {
        if i < point {
            assert(text[i] == whole[i - start]);
            assert(numbers::is_digit(whole[i - start]));
        } else {
            assert(text[i] == decimals[i - point - 1]);
        }
    }
}

/// A request bids to make, never to take: it buys its own side at its own price alone, rests until it
/// is canceled, and asks for the number of contracts given.
pub proof fn law_request_bids_its_own_side(
    req: PlaceReq,
    ticker: Seq<char>,
    side: Side,
    price: i64,
    count: i64,
    id: Seq<char>,
)
    requires
        is_place_req(req, ticker, side, price, count, id),
    ensures
        req.ticker@ == ticker,
        req.client_order_id@ == id,
        req.action@ == "buy"@,
        req.order_type@ == "limit"@,
        req.time_in_force@ == "good_till_canceled"@,
        req.post_only && req.cancel_order_on_pause,
        side == Side::Yes ==> req.side@ == "yes"@ && req.yes_price_dollars is Some
            && req.no_price_dollars is None && req.yes_price_dollars->0@ == dollars(price as int),
        side == Side::No ==> req.side@ == "no"@ && req.no_price_dollars is Some
            && req.yes_price_dollars is None && req.no_price_dollars->0@ == dollars(price as int),
        req.count_fp@.len() > 3,
        numbers::signed_value(req.count_fp@.take(req.count_fp@.len() - 3)) == Some(count as int),
        req.count_fp@.skip(req.count_fp@.len() - 3) == seq!['.', '0', '0'],
{
    reveal_strlit(".00");
    let number = numbers::signed_decimal(count as int);
    numbers::law_signed_decimal_reads_back(count as int);
    assert(".00"@ =~= seq!['.', '0', '0']);
    assert(req.count_fp@.take(req.count_fp@.len() - 3) =~= number);
    assert(req.count_fp@.skip(req.count_fp@.len() - 3) =~= seq!['.', '0', '0']);
    if count >= 0 {
        numbers::law_decimal_has_no_leading_zero(count as nat);
    }
}

/// The position in a market is the first one listed for it, whatever follows, and 0 where none is.
pub proof fn law_first_position_counts(positions: Seq<Pos>, ticker: Seq<char>, i: int)
    ensures
        0 <= i < positions.len() && positions[i].ticker@ == ticker && (forall|j: int|
            0 <= j < i ==> (#[trigger] positions[j]).ticker@ != ticker) ==> position_in(
            positions,
            ticker,
        ) == positions[i].position,
        (forall|j: int| 0 <= j < positions.len() ==> (#[trigger] positions[j]).ticker@ != ticker)
            ==> position_in(positions, ticker) == 0,
    decreases positions.len(),
{
    if positions.len() > 0 && positions[0].ticker@ != ticker {
        let rest = positions.skip(1);
        law_first_position_counts(rest, ticker, i - 1);
        if 0 <= i < positions.len() && positions[i].ticker@ == ticker && (forall|j: int|
            0 <= j < i ==> (#[trigger] positions[j]).ticker@ != ticker) {
            assert forall|j: int| 0 <= j < i - 1 implies (#[trigger] rest[j]).ticker@ != ticker by {
                assert(positions[j + 1].ticker@ != ticker);
            }
            assert(rest[i - 1] == positions[i]);
        }
        if forall|j: int| 0 <= j < positions.len() ==> (#[trigger] positions[j]).ticker@ != ticker {
            assert forall|j: int| 0 <= j < rest.len() implies (#[trigger] rest[j]).ticker@
                != ticker by {
                assert(positions[j + 1].ticker@ != ticker);
            }
        }
    } else if positions.len() > 0 {
        assert(positions[0].ticker@ == ticker);
    }
}

} // verus!
