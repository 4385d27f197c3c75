//! The orders that rest at the exchange, by exchange order id.

use crate::book_side;
use crate::order_book::Side;
use crate::text;
use vstd::prelude::*;

verus! {

/// After this many nanoseconds without confirmation an order counts as stale: ten seconds.
pub const STALE_AFTER_NANOS: u128 = 10_000_000_000;

/// One resting order.
#[derive(Debug)]
pub struct Order {
    pub order_id: String,
    /// The contract bid for.
    pub side: Side,
    /// Cents, in the price of that contract.
    pub price: i64,
    /// Contracts not filled yet.
    pub remaining: i64,
    /// Nanoseconds on the session clock.
    pub placed_at: u128,
}

/// The resting orders, oldest first. No id occurs twice.
pub struct Tracker {
    pub orders: Vec<Order>,
}

/// The contracts still to be filled on one side.
pub open spec fn pending(orders: Seq<Order>, side: Side) -> int
    decreases orders.len(),
{
    if orders.len() == 0 {
        0
    } else {
        pending(orders.drop_last(), side) + if orders.last().side == side {
            orders.last().remaining as int
        } else {
            0
        }
    }
}

/// The place of the order with this id, -1 when there is none.
pub open spec fn place_of(orders: Seq<Order>, id: Seq<char>) -> int
    decreases orders.len(),
{
    if orders.len() == 0 {
        -1
    } else if orders.last().order_id@ == id {
        orders.len() - 1
    } else {
        place_of(orders.drop_last(), id)
    }
}

/// The orders without the one that has this id.
pub open spec fn without(orders: Seq<Order>, id: Seq<char>) -> Seq<Order> {
    if place_of(orders, id) >= 0 {
        orders.remove(place_of(orders, id))
    } else {
        orders
    }
}

/// The orders with `order` in them: in the place of the one with the same id, or at the end.
pub open spec fn with(orders: Seq<Order>, order: Order) -> Seq<Order> {
    let i = place_of(orders, order.order_id@);
    if i >= 0 {
        orders.update(i, order)
    } else {
        orders.push(order)
    }
}

/// The orders without those that have one of these ids.
pub open spec fn without_all(orders: Seq<Order>, ids: Seq<String>) -> Seq<Order>
    decreases ids.len(),
{
    if ids.len() == 0 {
        orders
    } else {
        without(without_all(orders, ids.drop_last()), ids.last()@)
    }
}

/// The orders after `count` contracts of the order with this id were filled: it is gone when nothing
/// remains of it.
pub open spec fn after_fill(orders: Seq<Order>, id: Seq<char>, count: i64) -> Seq<Order> {
    let i = place_of(orders, id);
    if i < 0 {
        orders
    } else if orders[i].remaining - count <= 0 {
        orders.remove(i)
    } else {
        orders.update(
            i,
            Order { remaining: (orders[i].remaining - count) as i64, ..orders[i] },
        )
    }
}

/// Whether the fill can be counted within `i64`.
pub open spec fn fill_fits(orders: Seq<Order>, id: Seq<char>, count: i64) -> bool {
    place_of(orders, id) >= 0 ==> book_side::fits_i64(
        orders[place_of(orders, id)].remaining - count,
    )
}

/// Whether the contracts on one side can be added up within `i64`, oldest order first.
pub open spec fn pending_fits(orders: Seq<Order>, side: Side) -> bool {
    forall|k: int| 0 <= k <= orders.len() ==> book_side::fits_i64(
        #[trigger] pending(orders.take(k), side),
    )
}

/// No id occurs twice.
pub open spec fn distinct_ids(orders: Seq<Order>) -> bool {
    forall|i: int, j: int|
        0 <= i < j < orders.len() ==> (#[trigger] orders[i]).order_id@ != (#[trigger] orders[j]).order_id@
}

/// The ids of a list of orders.
pub open spec fn ids_of(orders: Seq<Order>) -> Seq<String> {
    orders.map_values(|o: Order| o.order_id)
}

/// Whether the order was placed more than ten seconds before `now`.
pub open spec fn is_stale(order: Order, now: u128) -> bool {
    now - order.placed_at > STALE_AFTER_NANOS
}

/// The orders on one side.
pub open spec fn on_side(orders: Seq<Order>, side: Side) -> Seq<Order> {
    orders.filter(|o: Order| o.side == side)
}

/// The orders that are stale at `now`.
pub open spec fn stale(orders: Seq<Order>, now: u128) -> Seq<Order> {
    orders.filter(|o: Order| is_stale(o, now))
}

/// The orders that are not stale at `now`.
pub open spec fn fresh(orders: Seq<Order>, now: u128) -> Seq<Order> {
    orders.filter(|o: Order| !is_stale(o, now))
}

/// The place of an id is where it stands; without a place, it stands nowhere.
pub proof fn lemma_place_of(orders: Seq<Order>, id: Seq<char>)
    ensures
        -1 <= place_of(orders, id) < orders.len(),
        place_of(orders, id) >= 0 ==> orders[place_of(orders, id)].order_id@ == id,
        place_of(orders, id) < 0 ==> forall|i: int|
            0 <= i < orders.len() ==> (#[trigger] orders[i]).order_id@ != id,
    decreases orders.len(),
{
    if orders.len() > 0 && orders.last().order_id@ != id {
        let rest = orders.drop_last();
        lemma_place_of(rest, id);
        if place_of(rest, id) < 0 {
            assert forall|i: int| 0 <= i < orders.len() implies (#[trigger] orders[i]).order_id@
                != id by {
                if i < rest.len() {
                    assert(rest[i].order_id@ != id);
                }
            }
        }
    }
}

/// With distinct ids, an id found anywhere is found at its place.
pub proof fn lemma_place_is_unique(orders: Seq<Order>, i: int)
    requires
        distinct_ids(orders),
        0 <= i < orders.len(),
    ensures
        place_of(orders, orders[i].order_id@) == i,
{
    let id = orders[i].order_id@;
    lemma_place_of(orders, id);
    let r = place_of(orders, id);
    if r < 0 {
        assert(orders[i].order_id@ != id);
    } else if r < i {
        assert(orders[r].order_id@ != orders[i].order_id@);
    } else if i < r {
        assert(orders[i].order_id@ != orders[r].order_id@);
    }
}

/// Dropping some orders leaves distinct ids distinct.
pub proof fn lemma_filter_keeps_distinct(orders: Seq<Order>, keep: spec_fn(Order) -> bool)
    requires
        distinct_ids(orders),
    ensures
        distinct_ids(orders.filter(keep)),
        forall|i: int|
            0 <= i < orders.filter(keep).len() ==> orders.contains(
                #[trigger] orders.filter(keep)[i],
            ),
    decreases orders.len(),
{
    reveal(Seq::filter);
    if orders.len() > 0 {
        let rest = orders.drop_last();
        assert(distinct_ids(rest));
        lemma_filter_keeps_distinct(rest, keep);
        let kept = orders.filter(keep);
        let below = rest.filter(keep);
        assert forall|i: int| 0 <= i < kept.len() implies orders.contains(#[trigger] kept[i]) by {
            if i < below.len() {
                assert(kept[i] == below[i]);
                assert(rest.contains(below[i]));
                let j = choose|j: int| 0 <= j < rest.len() && rest[j] == below[i];
                assert(orders[j] == kept[i]);
            } else {
                assert(orders[orders.len() - 1] == kept[i]);
            }
        }
        assert forall|i: int, j: int| 0 <= i < j < kept.len() implies (#[trigger] kept[i]).order_id@
            != (#[trigger] kept[j]).order_id@ by {
            assert(kept[i] == below[i]);
            if j < below.len() {
                assert(kept[j] == below[j]);
            } else {
                assert(rest.contains(below[i]));
                let m = choose|m: int| 0 <= m < rest.len() && rest[m] == below[i];
                assert(orders[m] == below[i]);
                assert(orders[m].order_id@ != orders[orders.len() - 1].order_id@);
            }
        }
    }
}

impl Clone for Order {
    fn clone(&self) -> (copy: Self)
        ensures
            copy == *self,
    {
        Order {
            order_id: self.order_id.clone(),
            side: self.side,
            price: self.price,
            remaining: self.remaining,
            placed_at: self.placed_at,
        }
    }
}

impl Tracker {
    /// No id occurs twice.
    pub open spec fn wf(self) -> bool {
        distinct_ids(self.orders@)
    }

    /// A tracker without orders.
    pub fn new() -> (tracker: Self)
        ensures
            tracker.orders@.len() == 0,
            tracker.wf(),
    {
        Tracker { orders: Vec::new() }
    }

    /// Whether `pending_on_side` can add up this side within `i64`.
    pub fn can_sum_pending(&self, side: Side) -> (fits: bool)
        ensures
            fits == pending_fits(self.orders@, side),
    {
        let mut total: i64 = 0;
        let mut i: usize = 0;
        let ghost orders = self.orders@;
        assert(orders.take(0) =~= seq![]);
        while i < self.orders.len()
            invariant
                orders == self.orders@,
                i <= orders.len(),
                total == pending(orders.take(i as int), side),
                forall|k: int| 0 <= k <= i ==> book_side::fits_i64(
                    #[trigger] pending(orders.take(k), side),
                ),
            decreases orders.len() - i,
        {
            assert(orders.take(i + 1).drop_last() =~= orders.take(i as int));
            if self.orders[i].side == side {
                match total.checked_add(self.orders[i].remaining) {
                    Some(sum) => {
                        total = sum;
                    },
                    None => {
                        assert(!book_side::fits_i64(pending(orders.take(i + 1), side)));
                        return false;
                    },
                }
            }
            i += 1;
        }
        true
    }

    /// The contracts still to be filled on one side.
    pub fn pending_on_side(&self, side: Side) -> (total: i64)
        requires
            pending_fits(self.orders@, side),
        ensures
            total == pending(self.orders@, side),
    {
        let mut total: i64 = 0;
        let mut i: usize = 0;
        let ghost orders = self.orders@;
        assert(orders.take(0) =~= seq![]);
        while i < self.orders.len()
            invariant
                orders == self.orders@,
                i <= orders.len(),
                pending_fits(orders, side),
                total == pending(orders.take(i as int), side),
            decreases orders.len() - i,
        {
            assert(orders.take(i + 1).drop_last() =~= orders.take(i as int));
            assert(book_side::fits_i64(pending(orders.take(i + 1), side)));
            if self.orders[i].side == side {
                total = total + self.orders[i].remaining;
            }
            i += 1;
        }
        assert(orders.take(i as int) =~= orders);
        total
    }

    /// The place of the order with this id.
    fn find(&self, id: &str) -> (place: Option<usize>)
        ensures
            place is Some <==> place_of(self.orders@, id@) >= 0,
            place matches Some(i) ==> i == place_of(self.orders@, id@) && i < self.orders@.len(),
    {
        let mut i: usize = self.orders.len();
        let ghost orders = self.orders@;
        assert(orders.take(i as int) =~= orders);
        while i > 0
            invariant
                orders == self.orders@,
                i <= orders.len(),
                place_of(orders, id@) == place_of(orders.take(i as int), id@),
            decreases i,
        {
            i -= 1;
            assert(orders.take(i + 1).drop_last() =~= orders.take(i as int));
            if text::same_text(self.orders[i].order_id.as_str(), id) {
                return Some(i);
            }
        }
        None
    }

    /// Takes an order in, in place of one with the same id.
    pub fn insert(&mut self, order: Order)
        requires
            old(self).wf(),
        ensures
            final(self).orders@ == with(old(self).orders@, order),
            final(self).wf(),
    {
        proof {
            lemma_place_of(self.orders@, order.order_id@);
        }
        match self.find(order.order_id.as_str()) {
            Some(i) => {
                self.orders[i] = order;
            },
            None => {
                self.orders.push(order);
            },
        }
    }

    /// Drops the order with this id, if there is one.
    pub fn remove(&mut self, id: &str)
        requires
            old(self).wf(),
        ensures
            final(self).orders@ == without(old(self).orders@, id@),
            final(self).wf(),
    {
        if let Some(i) = self.find(id) {
            self.orders.remove(i);
        }
    }

    /// Drops the orders with these ids.
    pub fn remove_each(&mut self, ids: &Vec<String>)
        requires
            old(self).wf(),
        ensures
            final(self).orders@ == without_all(old(self).orders@, ids@),
            final(self).wf(),
    {
        let mut i: usize = 0;
        assert(ids@.take(0) =~= seq![]);
        while i < ids.len()
            invariant
                i <= ids.len(),
                self.wf(),
                self.orders@ == without_all(old(self).orders@, ids@.take(i as int)),
            decreases ids.len() - i,
        {
            assert(ids@.take(i + 1).drop_last() =~= ids@.take(i as int));
            self.remove(ids[i].as_str());
            i += 1;
        }
        assert(ids@.take(i as int) =~= ids@);
    }

    /// Drops all orders.
    pub fn remove_all(&mut self)
        ensures
            final(self).orders@.len() == 0,
            final(self).wf(),
    {
        self.orders.clear();
    }

    /// Whether `record_fill` takes this fill.
    pub fn can_record_fill(&self, id: &str, count: i64) -> (fits: bool)
        ensures
            fits == fill_fits(self.orders@, id@, count),
    {
        match self.find(id) {
            Some(i) => self.orders[i].remaining.checked_sub(count).is_some(),
            None => true,
        }
    }

    /// Counts `count` filled contracts against the order with this id, if there is one, and drops it
    /// when nothing remains.
    pub fn record_fill(&mut self, id: &str, count: i64)
        requires
            old(self).wf(),
            fill_fits(old(self).orders@, id@, count),
        ensures
            final(self).orders@ == after_fill(old(self).orders@, id@, count),
            final(self).wf(),
    {
        if let Some(i) = self.find(id) {
            let remaining: i64 = self.orders[i].remaining - count;
            if remaining <= 0 {
                self.orders.remove(i);
            } else {
                let mut order: Order = self.orders[i].clone();
                order.remaining = remaining;
                self.orders[i] = order;
            }
        }
    }

    /// The ids of all orders.
    pub fn order_ids(&self) -> (ids: Vec<String>)
        ensures
            ids@ == ids_of(self.orders@),
    {
        let mut ids: Vec<String> = Vec::new();
        let mut i: usize = 0;
        while i < self.orders.len()
            invariant
                i <= self.orders.len(),
                ids@ == ids_of(self.orders@.take(i as int)),
            decreases self.orders.len() - i,
        {
            ids.push(self.orders[i].order_id.clone());
            assert(ids@ =~= ids_of(self.orders@.take(i + 1)));
            i += 1;
        }
        assert(self.orders@.take(i as int) =~= self.orders@);
        ids
    }

    /// The ids of the orders on one side.
    pub fn ids_on_side(&self, side: Side) -> (ids: Vec<String>)
        ensures
            ids@ == ids_of(on_side(self.orders@, side)),
    {
        let mut ids: Vec<String> = Vec::new();
        let mut i: usize = 0;
        let ghost orders = self.orders@;
        proof {
            reveal(Seq::filter);
            assert(orders.take(0) =~= seq![]);
        }
        while i < self.orders.len()
            invariant
                orders == self.orders@,
                i <= orders.len(),
                ids@ == ids_of(on_side(orders.take(i as int), side)),
            decreases orders.len() - i,
        {
            let ghost seen = on_side(orders.take(i as int), side);
            proof {
                reveal(Seq::filter);
                assert(orders.take(i + 1).drop_last() =~= orders.take(i as int));
            }
            if self.orders[i].side == side {
                ids.push(self.orders[i].order_id.clone());
                assert(ids_of(seen.push(orders[i as int])) =~= ids_of(seen).push(
                    orders[i as int].order_id,
                ));
            }
            i += 1;
        }
        assert(orders.take(i as int) =~= orders);
        ids
    }

    /// Drops the orders that are stale at `now` and gives their ids.
    pub fn drop_stale(&mut self, now: u128) -> (ids: Vec<String>)
        requires
            old(self).wf(),
        ensures
            ids@ == ids_of(stale(old(self).orders@, now)),
            final(self).orders@ == fresh(old(self).orders@, now),
            final(self).wf(),
    {
        let mut ids: Vec<String> = Vec::new();
        let mut kept: Vec<Order> = Vec::new();
        let mut i: usize = 0;
        let ghost orders = self.orders@;
        proof {
            reveal(Seq::filter);
            assert(orders.take(0) =~= seq![]);
        }
        while i < self.orders.len()
            invariant
                orders == self.orders@,
                i <= orders.len(),
                ids@ == ids_of(stale(orders.take(i as int), now)),
                kept@ == fresh(orders.take(i as int), now),
            decreases orders.len() - i,
        {
            let ghost dropped = stale(orders.take(i as int), now);
            proof {
                reveal(Seq::filter);
                assert(orders.take(i + 1).drop_last() =~= orders.take(i as int));
            }
            if now.saturating_sub(self.orders[i].placed_at) > STALE_AFTER_NANOS {
                ids.push(self.orders[i].order_id.clone());
                assert(ids_of(dropped.push(orders[i as int])) =~= ids_of(dropped).push(
                    orders[i as int].order_id,
                ));
            } else {
                kept.push(self.orders[i].clone());
            }
            i += 1;
        }
        proof {
            assert(orders.take(i as int) =~= orders);
            lemma_filter_keeps_distinct(orders, |o: Order| !is_stale(o, now));
        }
        self.orders = kept;
        ids
    }
}

} // verus!
