//! What to quote: the grid of bids that the position allows, and the orders to cancel and to place
//! to get there.

use crate::book_side;
use crate::config::Config;
use crate::order_book::{OrderBook, Side};
use crate::pairs::PairTracker;
use crate::tracker;
use crate::tracker::{Order, Tracker};
use vstd::prelude::*;

verus! {

/// The bids wanted on the book.
#[derive(Debug)]
pub struct DesiredOrders {
    /// In YES cents.
    pub yes_prices: Vec<i64>,
    /// In NO cents.
    pub no_prices: Vec<i64>,
}

impl DesiredOrders {
    /// Whether the same bids are wanted.
    pub fn same_as(&self, other: &DesiredOrders) -> (same: bool)
        ensures
            same == (self.yes_prices@ == other.yes_prices@ && self.no_prices@
                == other.no_prices@),
    {
        let same_yes: bool = self.yes_prices == other.yes_prices;
        let same_no: bool = self.no_prices == other.no_prices;
        assert(same_yes ==> self.yes_prices@ =~= other.yes_prices@);
        assert(same_no ==> self.no_prices@ =~= other.no_prices@);
        same_yes && same_no
    }
}

impl Clone for DesiredOrders {
    fn clone(&self) -> (copy: Self)
        ensures
            copy.yes_prices@ == self.yes_prices@,
            copy.no_prices@ == self.no_prices@,
    {
        DesiredOrders { yes_prices: self.yes_prices.clone(), no_prices: self.no_prices.clone() }
    }
}

/// The number of levels of a grid that starts at `best`: no more than `levels`, none below one cent,
/// and no more than `capacity` takes at `size` contracts each.
pub open spec fn grid_len(best: int, levels: int, capacity: int, size: int) -> int {
    if levels <= 0 || best <= 0 || capacity < size {
        0
    } else if size > 0 {
        book_side::min_of(book_side::min_of(levels, best), capacity / size)
    } else {
        book_side::min_of(levels, best)
    }
}

/// The prices of the grid, a cent apart from `best` down.
pub open spec fn grid_prices(best: int, levels: int, capacity: int, size: int) -> Seq<i64> {
    Seq::new(grid_len(best, levels, capacity, size) as nat, |i: int| (best - i) as i64)
}

/// How many contracts may still be bought on one side.
pub open spec fn capacity(pairs: PairTracker, orders: Seq<Order>, side: Side, max: int) -> int {
    match side {
        Side::Yes => max - (pairs.inventory + tracker::pending(orders, side)),
        Side::No => max - (-pairs.inventory + tracker::pending(orders, side)),
    }
}

/// The prices wanted on one side.
pub open spec fn desired_prices(
    book: OrderBook,
    pairs: PairTracker,
    orders: Seq<Order>,
    config: Config,
    side: Side,
) -> Seq<i64> {
    if book.quoted() {
        grid_prices(
            book.bids(side).best_bid as int,
            config.grid_levels as int,
            capacity(pairs, orders, side, config.max_inventory as int),
            config.order_size as int,
        )
    } else {
        seq![]
    }
}

/// Whether the capacity of one side can be worked out within `i64`.
pub open spec fn capacity_fits(
    book: OrderBook,
    pairs: PairTracker,
    orders: Seq<Order>,
    config: Config,
    side: Side,
) -> bool {
    let used = match side {
        Side::Yes => pairs.inventory + tracker::pending(orders, side),
        Side::No => -pairs.inventory + tracker::pending(orders, side),
    };
    let room = capacity(pairs, orders, side, config.max_inventory as int);
    let n = grid_len(
        book.bids(side).best_bid as int,
        config.grid_levels as int,
        room,
        config.order_size as int,
    );
    &&& tracker::pending_fits(orders, side)
    &&& book_side::fits_i64(used)
    &&& book_side::fits_i64(room)
    &&& book_side::fits_i64(room - n * config.order_size)
}

/// Whether `compute_desired` stays within `i64`.
pub open spec fn desired_fits(
    book: OrderBook,
    pairs: PairTracker,
    orders: Seq<Order>,
    config: Config,
) -> bool {
    book.quoted() ==> {
        &&& pairs.inventory > i64::MIN
        &&& capacity_fits(book, pairs, orders, config, Side::Yes)
        &&& capacity_fits(book, pairs, orders, config, Side::No)
    }
}

/// The grid prices, one by one as long as there is room for another order.
fn grid(best: i64, levels: i64, room: i64, size: i64) -> (prices: Vec<i64>)
    requires
        1 <= best <= 99,
        book_side::fits_i64(
            room - grid_len(best as int, levels as int, room as int, size as int) * size,
        ),
    ensures
        prices@ == grid_prices(best as int, levels as int, room as int, size as int),
{
    let mut prices: Vec<i64> = Vec::new();
    let mut remaining: i64 = room;
    let mut level: i64 = 0;
    let ghost n = grid_len(best as int, levels as int, room as int, size as int);
    proof {
        assert(0 * size == 0) by (nonlinear_arith);
        if size > 0 && room >= size {
            vstd::arithmetic::div_mod::lemma_fundamental_div_mod(room as int, size as int);
            assert(room / size >= 0) by (nonlinear_arith)
                requires
                    size > 0,
                    room >= size,
            ;
        }
    }
    while level < levels && remaining >= size && level < best
        invariant
            1 <= best <= 99,
            n == grid_len(best as int, levels as int, room as int, size as int),
            book_side::fits_i64(room - n * size),
            0 <= level <= n,
            remaining == room - level * size,
            prices@ == Seq::new(level as nat, |i: int| (best - i) as i64),
        decreases best - level,
    {
        proof {
            lemma_room_for_next(best as int, levels as int, room as int, size as int, level as int);
            assert(level * size + size == (level + 1) * size) by (nonlinear_arith);
        }
        prices.push(best - level);
        remaining = remaining - size;
        assert(prices@ =~= Seq::new((level + 1) as nat, |i: int| (best - i) as i64));
        level += 1;
    }
    proof {
        lemma_room_is_used(best as int, levels as int, room as int, size as int, level as int);
        assert(prices@ =~= grid_prices(best as int, levels as int, room as int, size as int));
    }
    prices
}

/// Where another level fits, the grid is longer than `level`, and the room left stays in range.
proof fn lemma_room_for_next(best: int, levels: int, room: int, size: int, level: int)
    requires
        0 <= level < levels,
        level < best,
        room - level * size >= size,
        level <= grid_len(best, levels, room, size),
        book_side::fits_i64(room),
        book_side::fits_i64(size),
        book_side::fits_i64(room - grid_len(best, levels, room, size) * size),
    ensures
        level < grid_len(best, levels, room, size),
        book_side::fits_i64(room - level * size - size),
{
    let n = grid_len(best, levels, room, size);
    if size > 0 {
        assert(level + 1 <= room / size) by (nonlinear_arith)
            requires
                size > 0,
                room - level * size >= size,
        ;
        assert(room >= size) by (nonlinear_arith)
            requires
                size > 0,
                level >= 0,
                room - level * size >= size,
        ;
        assert(level * size >= 0) by (nonlinear_arith)
            requires
                size > 0,
                level >= 0,
        ;
    } else {
        if room < size {
            assert(n == 0);
            assert(level == 0);
            assert(0 * size == 0) by (nonlinear_arith);
        }
        assert(level < n);
        assert(level * size + size == (level + 1) * size) by (nonlinear_arith);
        assert((level + 1) * size >= n * size) by (nonlinear_arith)
            requires
                size <= 0,
                level + 1 <= n,
        ;
        assert((level + 1) * size <= 0) by (nonlinear_arith)
            requires
                size <= 0,
                level >= 0,
        ;
    }
}

/// Where no further level fits, the grid ends.
proof fn lemma_room_is_used(best: int, levels: int, room: int, size: int, level: int)
    requires
        0 <= level <= grid_len(best, levels, room, size),
        !(level < levels && room - level * size >= size && level < best),
    ensures
        level == grid_len(best, levels, room, size),
{
    let n = grid_len(best, levels, room, size);
    if level < n {
        if size > 0 {
            assert(room - level * size >= size) by (nonlinear_arith)
                requires
                    size > 0,
                    level + 1 <= room / size,
            ;
        } else {
            assert(room - level * size >= size) by (nonlinear_arith)
                requires
                    size <= 0,
                    level >= 0,
                    room >= size,
            ;
        }
    }
}

/// What bids are wanted now: a grid on each side from the best bid down, as deep as the settings and
/// the position allow. Nothing is wanted unless the book has a bid and an ask that do not cross.
pub fn compute_desired(
    book: &OrderBook,
    pairs: &PairTracker,
    tracker: &Tracker,
    config: &Config,
) -> (desired: DesiredOrders)
    requires
        desired_fits(*book, *pairs, tracker.orders@, *config),
    ensures
        desired.yes_prices@ == desired_prices(
            *book,
            *pairs,
            tracker.orders@,
            *config,
            Side::Yes,
        ),
        desired.no_prices@ == desired_prices(*book, *pairs, tracker.orders@, *config, Side::No),
{
    let yb: i64 = book.best_yes_bid();
    let nb: i64 = book.no_bids.best_bid;
    if yb <= 0 || nb <= 0 {
        return DesiredOrders { yes_prices: Vec::new(), no_prices: Vec::new() };
    }
    let ya: i64 = book.best_yes_ask();
    if ya <= yb {
        return DesiredOrders { yes_prices: Vec::new(), no_prices: Vec::new() };
    }
    let inventory: i64 = pairs.inventory;
    let effective_long: i64 = inventory + tracker.pending_on_side(Side::Yes);
    let effective_short: i64 = -inventory + tracker.pending_on_side(Side::No);
    let max: i64 = config.max_inventory;
    let yes_prices: Vec<i64> = grid(
        yb,
        config.grid_levels,
        max - effective_long,
        config.order_size,
    );
    let no_prices: Vec<i64> = grid(
        nb,
        config.grid_levels,
        max - effective_short,
        config.order_size,
    );
    DesiredOrders { yes_prices, no_prices }
}

/// Whether `grid` takes these arguments.
fn can_build_grid(best: i64, levels: i64, room: i64, size: i64) -> (fits: bool)
    requires
        1 <= best <= 99,
    ensures
        fits == book_side::fits_i64(
            room - grid_len(best as int, levels as int, room as int, size as int) * size,
        ),
{
    let ghost n = grid_len(best as int, levels as int, room as int, size as int);
    if levels <= 0 || room < size || size == 0 {
        proof {
            assert(0 * size == 0) by (nonlinear_arith);
            assert(size == 0 ==> n * size == 0) by (nonlinear_arith);
        }
        return true;
    }
    if size > 0 {
        proof {
            assert(room / size >= 0 && (room / size) * size <= room) by (nonlinear_arith)
                requires
                    size > 0,
                    room >= size,
            ;
            assert(0 <= n * size <= room) by (nonlinear_arith)
                requires
                    size > 0,
                    0 <= n <= room / size,
                    (room / size) * size <= room,
            ;
        }
        return true;
    }
    let n_levels: i64 = if levels < best {
        levels
    } else {
        best
    };
    proof {
        assert(n == n_levels);
        assert(-99 * 0x8000_0000_0000_0000 <= n_levels * size <= 0) by (nonlinear_arith)
            requires
                0 < n_levels <= 99,
                -0x8000_0000_0000_0000 <= size < 0,
        ;
    }
    let left: i128 = room as i128 - n_levels as i128 * size as i128;
    left <= i64::MAX as i128 && left >= i64::MIN as i128
}

/// Whether `compute_desired` takes these arguments.
pub fn can_compute_desired(
    book: &OrderBook,
    pairs: &PairTracker,
    tracker: &Tracker,
    config: &Config,
) -> (fits: bool)
    ensures
        fits == desired_fits(*book, *pairs, tracker.orders@, *config),
{
    let yb: i64 = book.best_yes_bid();
    let nb: i64 = book.no_bids.best_bid;
    if yb <= 0 || nb <= 0 || book.best_yes_ask() <= yb {
        return true;
    }
    proof {
        let orders = tracker.orders@;
        assert(orders.take(orders.len() as int) =~= orders);
    }
    if pairs.inventory == i64::MIN || !tracker.can_sum_pending(Side::Yes)
        || !tracker.can_sum_pending(Side::No) {
        return false;
    }
    let long: Option<i64> = pairs.inventory.checked_add(tracker.pending_on_side(Side::Yes));
    let short: Option<i64> = (-pairs.inventory).checked_add(tracker.pending_on_side(Side::No));
    match (long, short) {
        (Some(long), Some(short)) => {
            match (config.max_inventory.checked_sub(long), config.max_inventory.checked_sub(short)) {
                (Some(yes_room), Some(no_room)) => can_build_grid(
                    yb,
                    config.grid_levels,
                    yes_room,
                    config.order_size,
                ) && can_build_grid(nb, config.grid_levels, no_room, config.order_size),
                _ => false,
            }
        },
        _ => false,
    }
}

} // verus!
