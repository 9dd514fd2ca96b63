use vstd::prelude::*;

use crate::book::{Order, OrderBook, Price, PriceLevel};
use crate::clock::now_micros;
use crate::lemmas::{
    lemma_side_ids_lt_not_has, lemma_side_ids_lt_widen, lemma_side_inserted_props,
};
use crate::model::{side_has_id, side_ids_lt, side_inserted, side_inserted_at, side_wf};
use crate::OrderBookError;

verus! {

/// Queues `o` at the tail of the level at `o.price`, creating that level at
/// its sorted position if it does not exist yet. Returns the level's index.
fn side_insert(side: &mut Vec<PriceLevel>, o: Order) -> (j: usize)
    requires
        side_wf(old(side)@, o.buy_order),
        o.quantity > 0,
    ensures
        side_inserted_at(old(side)@, final(side)@, j as int, o),
{
    let mut i: usize = 0;
    while i < side.len() && side[i].price < o.price
        invariant
            i <= side@.len(),
            forall|m: int| 0 <= m < i ==> (#[trigger] side@[m]).price < o.price,
            *side == *old(side),
        decreases side@.len() - i,
    {
        i = i + 1;
    }
    if i < side.len() && side[i].price == o.price {
        let level = &mut side[i];
        level.orders.push(o);
        i
    } else {
        let mut orders: Vec<Order> = Vec::new();
        orders.push(o);
        side.insert(i, PriceLevel { price: o.price, orders });
        i
    }
}

impl OrderBook {
    /// Submits a buy limit order. Rejects a zero quantity (`ZeroQuantity`)
    /// and a call with `buy == false` (`WrongSide`), in both cases leaving
    /// the book untouched. On success the order gets id `total_orders`, rests
    /// at the tail of the bid level at `price`, the counter advances by one,
    /// and the matching algorithm runs to completion; the id is returned even
    /// if the order was immediately fully filled.
    ///
    /// The contract composes the two halves: some intermediate book satisfies
    /// `submit_step` (the order queued at the tail of its level) and the final
    /// book is `matched` from it. It also states conservation directly: the
    /// bid side ends holding the submitted quantity minus what the new trades
    /// executed, the ask side shrank by exactly that traded quantity, and a
    /// buy below the best ask rests without producing any trade.
    pub fn buy(&mut self, buy: bool, price: Price, quantity: u128) -> (r: Result<
        u128,
        OrderBookError,
    >)
        requires
            old(self).wf(),
            old(self).no_cross(),
            old(self).total_orders < u128::MAX,
        ensures
            final(self).wf(),
            final(self).no_cross(),
            quantity == 0 ==> r == Err::<u128, OrderBookError>(OrderBookError::ZeroQuantity)
                && *final(self) == *old(self),
            quantity > 0 && !buy ==> r == Err::<u128, OrderBookError>(OrderBookError::WrongSide)
                && *final(self) == *old(self),
            quantity > 0 && buy ==> {
                &&& r == Ok::<u128, OrderBookError>(old(self).total_orders)
                &&& final(self).total_orders == old(self).total_orders + 1
                &&& old(self).transactions@.is_prefix_of(final(self).transactions@)
                &&& final(self).bid_qty() + final(self).trades_qty_from(
                    old(self).transactions@.len() as int,
                ) == old(self).bid_qty() + quantity
                &&& final(self).ask_qty() + final(self).trades_qty_from(
                    old(self).transactions@.len() as int,
                ) == old(self).ask_qty()
                &&& forall|t: int|
                    old(self).transactions@.len() <= t < final(self).transactions@.len() ==> (
                    #[trigger] final(self).transactions@[t]).quantity > 0
                &&& exists|o: Order, mid: OrderBook|
                    {
                        &&& o.buy_order == true
                        &&& o.price == price
                        &&& o.quantity == quantity
                        &&& #[trigger] old(self).submit_step(mid, o)
                        &&& mid.wf()
                        &&& mid.matched(*final(self))
                    }
            },
            quantity > 0 && buy && (old(self).sell_orders@.len() == 0 || price < old(
                self,
            ).sell_orders@[0].price) ==> {
                &&& final(self).transactions@ == old(self).transactions@
                &&& final(self).sell_orders@ == old(self).sell_orders@
                &&& side_has_id(final(self).buy_orders@, old(self).total_orders)
                &&& exists|tm: u64|
                    side_inserted(
                        old(self).buy_orders@,
                        final(self).buy_orders@,
                        Order {
                            buy_order: true,
                            price,
                            quantity,
                            id: old(self).total_orders,
                            time_created: tm,
                        },
                    )
            },
    {
        if quantity == 0 {
            return Err(OrderBookError::ZeroQuantity);
        }
        if !buy {
            return Err(OrderBookError::WrongSide);
        }
        let id = self.total_orders;
        let o = Order { buy_order: true, price, quantity, id, time_created: now_micros() };
        proof {
            lemma_side_ids_lt_not_has(self.buy_orders@, self.total_orders, id);
            lemma_side_ids_lt_not_has(self.sell_orders@, self.total_orders, id);
        }
        let ghost b0 = *self;
        let j = side_insert(&mut self.buy_orders, o);
        self.total_orders = self.total_orders + 1;
        proof {
            lemma_side_inserted_props(b0.buy_orders@, self.buy_orders@, j as int, o, true);
            lemma_side_ids_lt_widen(b0.buy_orders@, b0.total_orders, self.total_orders);
            lemma_side_ids_lt_widen(b0.sell_orders@, b0.total_orders, self.total_orders);
            assert(side_ids_lt(self.buy_orders@, self.total_orders));
            assert forall|x: u128| #[trigger] side_has_id(self.buy_orders@, x) implies !side_has_id(
                self.sell_orders@,
                x,
            ) by {
                assert(side_has_id(b0.buy_orders@, x) || x == id);
            }
            assert(self.wf());
        }
        let ghost mid = *self;
        self.resolve();
        proof {
            assert(side_inserted(b0.buy_orders@, mid.buy_orders@, o));
            assert(b0.submit_step(mid, o));
            if b0.sell_orders@.len() == 0 || price < b0.sell_orders@[0].price {
                // The new order cannot cross, so matching was a no-op and the
                // book is exactly the old book with the order appended.
                if b0.buy_orders@.len() > 0 && b0.sell_orders@.len() > 0 {
                    assert(b0.buy_orders@.last().price < b0.sell_orders@[0].price);
                }
                assert(mid.no_cross());
                assert(*self == mid);
                assert(side_inserted(b0.buy_orders@, self.buy_orders@, o));
            }
        }
        Ok(id)
    }

    /// Submits a sell limit order. Rejects a zero quantity (`ZeroQuantity`)
    /// and a call with `buy == true` (`WrongSide`), in both cases leaving the
    /// book untouched. On success the order gets id `total_orders`, rests at
    /// the tail of the ask level at `price`, the counter advances by one, and
    /// the matching algorithm runs to completion; the id is returned even if
    /// the order was immediately fully filled.
    ///
    /// The contract composes the two halves: some intermediate book satisfies
    /// `submit_step` (the order queued at the tail of its level) and the final
    /// book is `matched` from it. It also states conservation directly: the
    /// ask side ends holding the submitted quantity minus what the new trades
    /// executed, the bid side shrank by exactly that traded quantity, and a
    /// sell above the best bid rests without producing any trade.
    pub fn sell(&mut self, buy: bool, price: Price, quantity: u128) -> (r: Result<
        u128,
        OrderBookError,
    >)
        requires
            old(self).wf(),
            old(self).no_cross(),
            old(self).total_orders < u128::MAX,
        ensures
            final(self).wf(),
            final(self).no_cross(),
            quantity == 0 ==> r == Err::<u128, OrderBookError>(OrderBookError::ZeroQuantity)
                && *final(self) == *old(self),
            quantity > 0 && buy ==> r == Err::<u128, OrderBookError>(OrderBookError::WrongSide)
                && *final(self) == *old(self),
            quantity > 0 && !buy ==> {
                &&& r == Ok::<u128, OrderBookError>(old(self).total_orders)
                &&& final(self).total_orders == old(self).total_orders + 1
                &&& old(self).transactions@.is_prefix_of(final(self).transactions@)
                &&& final(self).ask_qty() + final(self).trades_qty_from(
                    old(self).transactions@.len() as int,
                ) == old(self).ask_qty() + quantity
                &&& final(self).bid_qty() + final(self).trades_qty_from(
                    old(self).transactions@.len() as int,
                ) == old(self).bid_qty()
                &&& forall|t: int|
                    old(self).transactions@.len() <= t < final(self).transactions@.len() ==> (
                    #[trigger] final(self).transactions@[t]).quantity > 0
                &&& exists|o: Order, mid: OrderBook|
                    {
                        &&& o.buy_order == false
                        &&& o.price == price
                        &&& o.quantity == quantity
                        &&& #[trigger] old(self).submit_step(mid, o)
                        &&& mid.wf()
                        &&& mid.matched(*final(self))
                    }
            },
            quantity > 0 && !buy && (old(self).buy_orders@.len() == 0 || old(
                self,
            ).buy_orders@.last().price < price) ==> {
                &&& final(self).transactions@ == old(self).transactions@
                &&& final(self).buy_orders@ == old(self).buy_orders@
                &&& side_has_id(final(self).sell_orders@, old(self).total_orders)
                &&& exists|tm: u64|
                    side_inserted(
                        old(self).sell_orders@,
                        final(self).sell_orders@,
                        Order {
                            buy_order: false,
                            price,
                            quantity,
                            id: old(self).total_orders,
                            time_created: tm,
                        },
                    )
            },
    {
        if quantity == 0 {
            return Err(OrderBookError::ZeroQuantity);
        }
        if buy {
            return Err(OrderBookError::WrongSide);
        }
        let id = self.total_orders;
        let o = Order { buy_order: false, price, quantity, id, time_created: now_micros() };
        proof {
            lemma_side_ids_lt_not_has(self.buy_orders@, self.total_orders, id);
            lemma_side_ids_lt_not_has(self.sell_orders@, self.total_orders, id);
        }
        let ghost b0 = *self;
        let j = side_insert(&mut self.sell_orders, o);
        self.total_orders = self.total_orders + 1;
        proof {
            lemma_side_inserted_props(b0.sell_orders@, self.sell_orders@, j as int, o, false);
            lemma_side_ids_lt_widen(b0.buy_orders@, b0.total_orders, self.total_orders);
            lemma_side_ids_lt_widen(b0.sell_orders@, b0.total_orders, self.total_orders);
            assert(side_ids_lt(self.sell_orders@, self.total_orders));
            assert forall|x: u128| #[trigger] side_has_id(self.buy_orders@, x) implies !side_has_id(
                self.sell_orders@,
                x,
            ) by {
                if side_has_id(self.sell_orders@, x) {
                    assert(side_has_id(b0.sell_orders@, x) || x == id);
                }
            }
            assert(self.wf());
        }
        let ghost mid = *self;
        self.resolve();
        proof {
            assert(side_inserted(b0.sell_orders@, mid.sell_orders@, o));
            assert(b0.submit_step(mid, o));
            if b0.buy_orders@.len() == 0 || b0.buy_orders@.last().price < price {
                // The new order cannot cross, so matching was a no-op and the
                // book is exactly the old book with the order appended.
                if b0.buy_orders@.len() > 0 && b0.sell_orders@.len() > 0 {
                    assert(b0.buy_orders@.last().price < b0.sell_orders@[0].price);
                }
                assert(mid.no_cross());
                assert(*self == mid);
                assert(side_inserted(b0.sell_orders@, self.sell_orders@, o));
            }
        }
        Ok(id)
    }
}

} // verus!
