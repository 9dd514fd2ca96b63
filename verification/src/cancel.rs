use vstd::prelude::*;

use crate::book::{Order, OrderBook, PriceLevel};
use crate::lemmas::{
    lemma_disjoint_shrunk, lemma_orders_qty_remove, lemma_side_order_removed, lemma_side_qty_remove,
    lemma_side_qty_update, lemma_side_singleton_level_removed,
};
use crate::model::{
    order_ok, orders_qty, side_has_id, side_ids_lt, side_ids_unique, side_qty, side_removed_at,
    side_wf,
};
use crate::query::side_find;
use crate::OrderBookError;

verus! {

/// Removes the order at queue position `k` of level `i`, dropping the level
/// if it becomes empty, and returns the removed order.
fn side_remove_order(
    side: &mut Vec<PriceLevel>,
    i: usize,
    k: usize,
    Ghost(is_buy): Ghost<bool>,
    Ghost(n): Ghost<u128>,
) -> (o: Order)
    requires
        side_wf(old(side)@, is_buy),
        side_ids_unique(old(side)@),
        side_ids_lt(old(side)@, n),
        (i as int) < old(side)@.len(),
        (k as int) < old(side)@[i as int].orders@.len(),
    ensures
        o == old(side)@[i as int].orders@[k as int],
        o.quantity > 0,
        o.buy_order == is_buy,
        side_wf(final(side)@, is_buy),
        side_ids_unique(final(side)@),
        side_ids_lt(final(side)@, n),
        forall|x: u128|
            #[trigger] side_has_id(final(side)@, x) <==> side_has_id(old(side)@, x) && x != o.id,
        side_removed_at(old(side)@, final(side)@, i as int, k as int),
        side_qty(final(side)@) == side_qty(old(side)@) - o.quantity,
        final(side)@.len() > 0 ==> final(side)@[0].price >= old(side)@[0].price
            && final(side)@.last().price <= old(side)@.last().price,
{
    let ghost s = side@;
    let mut level = side.remove(i);
    let o = level.orders.remove(k);
    proof {
        assert(order_ok(s[i as int].orders@[k as int], s[i as int].price, is_buy));
    }
    if level.orders.len() > 0 {
        let ghost l2 = level;
        side.insert(i, level);
        proof {
            assert(side@ =~= s.update(i as int, l2));
            lemma_side_order_removed(s, side@, i as int, k as int, is_buy, n);
            lemma_orders_qty_remove(s[i as int].orders@, k as int);
            lemma_side_qty_update(s, i as int, l2);
        }
    } else {
        proof {
            assert(side@ =~= s.remove(i as int));
            assert(side@ == s.remove(i as int));
            lemma_side_singleton_level_removed(s, i as int, is_buy, n);
            lemma_side_qty_remove(s, i as int);
            assert(s[i as int].orders@.len() == 1);
            assert(s[i as int].orders@.drop_last() =~= Seq::<Order>::empty());
            assert(orders_qty(Seq::<Order>::empty()) == 0);
            assert(s[i as int].orders@.last() == o);
            assert(orders_qty(s[i as int].orders@) == o.quantity as int);
        }
    }
    o
}

impl OrderBook {
    /// Cancels the resting order with this id, wherever it sits in its queue.
    /// Succeeds exactly when such an order rests in the book, returning the
    /// order with its remaining quantity; the level's key leaves its side if
    /// the queue becomes empty. On an unknown (or already filled or already
    /// canceled) id it fails with `NotFound` and changes nothing.
    ///
    /// Cancellation never triggers a new matching pass: removing liquidity
    /// cannot create a cross.
    pub fn cancel(&mut self, id: u128) -> (r: Result<Order, OrderBookError>)
        requires
            old(self).wf(),
            old(self).no_cross(),
        ensures
            final(self).wf(),
            final(self).no_cross(),
            old(self).cancel_post(*final(self), id, r),
    {
        let ghost b0 = *self;
        match side_find(&self.buy_orders, id) {
            Some((i, k)) => {
                let ghost n = self.total_orders;
                let o = side_remove_order(&mut self.buy_orders, i, k, Ghost(true), Ghost(n));
                proof {
                    lemma_disjoint_shrunk(
                        b0.buy_orders@,
                        self.buy_orders@,
                        b0.sell_orders@,
                        self.sell_orders@,
                    );
                    assert(side_has_id(b0.buy_orders@, id));
                    assert(!side_has_id(b0.sell_orders@, id));
                    assert forall|x: u128| x != id implies (#[trigger] self.has_id(x)
                        <==> b0.has_id(x)) by {}
                }
                Ok(o)
            },
            None => {
                match side_find(&self.sell_orders, id) {
                    Some((i, k)) => {
                        let ghost n = self.total_orders;
                        let o = side_remove_order(
                            &mut self.sell_orders,
                            i,
                            k,
                            Ghost(false),
                            Ghost(n),
                        );
                        proof {
                            lemma_disjoint_shrunk(
                                b0.buy_orders@,
                                self.buy_orders@,
                                b0.sell_orders@,
                                self.sell_orders@,
                            );
                            assert(side_has_id(b0.sell_orders@, id));
                            assert forall|x: u128| x != id implies (#[trigger] self.has_id(x)
                                <==> b0.has_id(x)) by {}
                        }
                        Ok(o)
                    },
                    None => {
                        proof {
                            assert(!b0.has_id(id));
                        }
                        Err(OrderBookError::NotFound)
                    },
                }
            },
        }
    }
}

} // verus!
