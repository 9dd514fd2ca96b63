use vstd::prelude::*;

use crate::book::{Order, OrderBook, PriceLevel};
use crate::model::{side_has_id, side_has_order};
use crate::OrderBookError;

verus! {

/// Scans one side for a resting order with this id and returns its level and
/// queue position.
pub(crate) fn side_find(side: &Vec<PriceLevel>, id: u128) -> (r: Option<(usize, usize)>)
    ensures
        match r {
            Some(ik) => {
                &&& (ik.0 as int) < side@.len()
                &&& (ik.1 as int) < side@[ik.0 as int].orders@.len()
                &&& side@[ik.0 as int].orders@[ik.1 as int].id == id
            },
            None => !side_has_id(side@, id),
        },
{
    let mut i: usize = 0;
    while i < side.len()
        invariant
            i <= side@.len(),
            forall|m: int, k: int|
                0 <= m < i && 0 <= k < side@[m].orders@.len() ==> (
                #[trigger] side@[m].orders@[k]).id != id,
        decreases side@.len() - i,
    {
        let level = &side[i];
        let mut k: usize = 0;
        while k < level.orders.len()
            invariant
                i < side@.len(),
                *level == side@[i as int],
                k <= level.orders@.len(),
                forall|kk: int| 0 <= kk < k ==> (#[trigger] level.orders@[kk]).id != id,
            decreases level.orders@.len() - k,
        {
            if level.orders[k].id == id {
                return Some((i, k));
            }
            k = k + 1;
        }
        i = i + 1;
    }
    proof {
        if side_has_id(side@, id) {
            let (m, k) = choose|m: int, k: int|
                0 <= m < side@.len() && 0 <= k < side@[m].orders@.len() && (
                #[trigger] side@[m].orders@[k]).id == id;
        }
    }
    None
}

impl OrderBook {
    /// Read-only lookup of a resting buy order by id; `NotFound` exactly when
    /// no buy order with this id rests in the book.
    pub fn get_buy_order(&self, id: u128) -> (r: Result<&Order, OrderBookError>)
        ensures
            match r {
                Ok(o) => side_has_id(self.buy_orders@, id) && o.id == id && side_has_order(
                    self.buy_orders@,
                    *o,
                ),
                Err(e) => e == OrderBookError::NotFound && !side_has_id(self.buy_orders@, id),
            },
    {
        match side_find(&self.buy_orders, id) {
            Some((i, k)) => {
                let o = &self.buy_orders[i].orders[k];
                proof {
                    assert(self.buy_orders@[i as int].orders@[k as int] == *o);
                }
                Ok(o)
            },
            None => Err(OrderBookError::NotFound),
        }
    }

    /// Read-only lookup of a resting sell order by id; `NotFound` exactly
    /// when no sell order with this id rests in the book.
    pub fn get_sell_order(&self, id: u128) -> (r: Result<&Order, OrderBookError>)
        ensures
            match r {
                Ok(o) => side_has_id(self.sell_orders@, id) && o.id == id && side_has_order(
                    self.sell_orders@,
                    *o,
                ),
                Err(e) => e == OrderBookError::NotFound && !side_has_id(self.sell_orders@, id),
            },
    {
        match side_find(&self.sell_orders, id) {
            Some((i, k)) => {
                let o = &self.sell_orders[i].orders[k];
                proof {
                    assert(self.sell_orders@[i as int].orders@[k as int] == *o);
                }
                Ok(o)
            },
            None => Err(OrderBookError::NotFound),
        }
    }

    /// Looks up a resting buy order by id, through a mutable handle on the
    /// book. The book's invariants do not allow handing out in-place mutable
    /// access to a resting order (a caller could zero its quantity or
    /// duplicate an id), so the caller receives a copy and the book is left
    /// untouched; resting orders change only through submission, matching and
    /// cancellation.
    pub fn get_mut_buy_order(&mut self, id: u128) -> (r: Result<Order, OrderBookError>)
        ensures
            *final(self) == *old(self),
            match r {
                Ok(o) => side_has_id(old(self).buy_orders@, id) && o.id == id && side_has_order(
                    old(self).buy_orders@,
                    o,
                ),
                Err(e) => e == OrderBookError::NotFound && !side_has_id(old(self).buy_orders@, id),
            },
    {
        match side_find(&self.buy_orders, id) {
            Some((i, k)) => {
                let o = self.buy_orders[i].orders[k];
                proof {
                    assert(self.buy_orders@[i as int].orders@[k as int] == o);
                }
                Ok(o)
            },
            None => Err(OrderBookError::NotFound),
        }
    }

    /// Looks up a resting sell order by id, through a mutable handle on the
    /// book. As with the buy side, the caller receives a copy and the book is
    /// left untouched.
    pub fn get_mut_sell_order(&mut self, id: u128) -> (r: Result<Order, OrderBookError>)
        ensures
            *final(self) == *old(self),
            match r {
                Ok(o) => side_has_id(old(self).sell_orders@, id) && o.id == id && side_has_order(
                    old(self).sell_orders@,
                    o,
                ),
                Err(e) => e == OrderBookError::NotFound && !side_has_id(old(self).sell_orders@, id),
            },
    {
        match side_find(&self.sell_orders, id) {
            Some((i, k)) => {
                let o = self.sell_orders[i].orders[k];
                proof {
                    assert(self.sell_orders@[i as int].orders@[k as int] == o);
                }
                Ok(o)
            },
            None => Err(OrderBookError::NotFound),
        }
    }

    /// The remaining quantity of the resting buy order with this id;
    /// `NotFound` exactly when no buy order with this id rests in the book.
    pub fn get_buy_order_quantity(&self, id: u128) -> (r: Result<u128, OrderBookError>)
        ensures
            match r {
                Ok(q) => exists|o: Order|
                    #[trigger] side_has_order(self.buy_orders@, o) && o.id == id && o.quantity
                        == q,
                Err(e) => e == OrderBookError::NotFound && !side_has_id(self.buy_orders@, id),
            },
    {
        match side_find(&self.buy_orders, id) {
            Some((i, k)) => {
                let o = self.buy_orders[i].orders[k];
                proof {
                    assert(self.buy_orders@[i as int].orders@[k as int] == o);
                    assert(side_has_order(self.buy_orders@, o));
                }
                Ok(o.quantity)
            },
            None => Err(OrderBookError::NotFound),
        }
    }

    /// The remaining quantity of the resting sell order with this id;
    /// `NotFound` exactly when no sell order with this id rests in the book.
    pub fn get_sell_order_quantity(&self, id: u128) -> (r: Result<u128, OrderBookError>)
        ensures
            match r {
                Ok(q) => exists|o: Order|
                    #[trigger] side_has_order(self.sell_orders@, o) && o.id == id && o.quantity
                        == q,
                Err(e) => e == OrderBookError::NotFound && !side_has_id(self.sell_orders@, id),
            },
    {
        match side_find(&self.sell_orders, id) {
            Some((i, k)) => {
                let o = self.sell_orders[i].orders[k];
                proof {
                    assert(self.sell_orders@[i as int].orders@[k as int] == o);
                    assert(side_has_order(self.sell_orders@, o));
                }
                Ok(o.quantity)
            },
            None => Err(OrderBookError::NotFound),
        }
    }
}

} // verus!
