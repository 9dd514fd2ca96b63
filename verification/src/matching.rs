use vstd::prelude::*;

use crate::book::{Order, OrderBook, Price, Transaction};
use crate::clock::now_micros;
use crate::lemmas::{
    lemma_asks_stream_dec, lemma_asks_stream_first, lemma_asks_stream_pop, lemma_bids_stream_dec,
    lemma_bids_stream_first, lemma_bids_stream_pop, lemma_disjoint_shrunk,
    lemma_match_stream_step, lemma_orders_qty_insert, lemma_orders_qty_remove,
    lemma_side_eaten_back_trans, lemma_side_eaten_front_trans, lemma_side_eaten_refl,
    lemma_side_level_removed, lemma_side_level_shrunk, lemma_side_qty_nonneg,
    lemma_side_qty_remove, lemma_side_qty_update, lemma_trades_qty_push,
};
use crate::model::{
    asks_stream, bids_stream, level_trimmed, level_trimmed_at, level_wf, match_asks_rem,
    match_bids_rem, match_stream, order_minus, order_ok, orders_qty, side_eaten_back,
    side_eaten_back_at, side_eaten_front, side_eaten_front_at, side_qty, trade_pairs, trades_qty,
};

verus! {

impl OrderBook {
    /// The matching algorithm: drains crossing liquidity until the book is
    /// uncrossed or one side is empty, running to completion as one
    /// indivisible step.
    ///
    /// Each round matches the head (oldest) order of the best bid level
    /// against the head of the best ask level — price-time priority — for
    /// the smaller of the two quantities, records one trade at the ask
    /// (resting-price) level, and drops any order or level that reaches zero.
    ///
    /// The contract is `matched`, which pins the run down completely: the
    /// trades appended are exactly what `match_stream` computes from the two
    /// consumption streams, the remaining streams are exactly the computed
    /// remainders, quantity is conserved, consumption is strictly
    /// best-price-first and oldest-first, and a book already uncrossed is
    /// left exactly as it was.
    #[verifier::rlimit(100)]
    pub fn resolve(&mut self)
        requires
            old(self).wf(),
        ensures
            final(self).wf(),
            final(self).no_cross(),
            old(self).matched(*final(self)),
    {
        let ghost b0 = *self;
        let ghost n0 = b0.transactions@.len() as int;
        proof {
            lemma_side_eaten_refl(self.buy_orders@);
            lemma_side_eaten_refl(self.sell_orders@);
            assert(self.transactions@.skip(n0) =~= Seq::<Transaction>::empty());
            assert(trade_pairs(self.transactions@.skip(n0)) =~= Seq::<(Price, u128)>::empty());
            assert(trade_pairs(self.transactions@.skip(n0)) + match_stream(
                bids_stream(self.buy_orders@),
                asks_stream(self.sell_orders@),
            ) =~= match_stream(bids_stream(self.buy_orders@), asks_stream(self.sell_orders@)));
        }
        loop
            invariant
                self.wf(),
                self.total_orders == b0.total_orders,
                b0.transactions@.is_prefix_of(self.transactions@),
                side_qty(self.buy_orders@) + trades_qty(self.transactions@.skip(n0)) == side_qty(
                    b0.buy_orders@,
                ),
                side_qty(self.sell_orders@) + trades_qty(self.transactions@.skip(n0)) == side_qty(
                    b0.sell_orders@,
                ),
                n0 == b0.transactions@.len(),
                forall|t: int|
                    n0 <= t < self.transactions@.len() ==> (
                    #[trigger] self.transactions@[t]).quantity > 0,
                self.buy_orders@.len() > 0 ==> b0.buy_orders@.len() > 0
                    && self.buy_orders@.last().price <= b0.buy_orders@.last().price,
                self.sell_orders@.len() > 0 ==> b0.sell_orders@.len() > 0
                    && self.sell_orders@[0].price >= b0.sell_orders@[0].price,
                self.transactions@.len() > n0 ==> b0.buy_orders@.len() > 0
                    && b0.sell_orders@.len() > 0,
                forall|t: int|
                    n0 <= t < self.transactions@.len() ==> b0.sell_orders@[0].price <= (
                    #[trigger] self.transactions@[t]).price <= b0.buy_orders@.last().price,
                forall|x: u128| #[trigger] self.has_id(x) ==> b0.has_id(x),
                side_eaten_back(b0.buy_orders@, self.buy_orders@),
                side_eaten_front(b0.sell_orders@, self.sell_orders@),
                match_stream(bids_stream(b0.buy_orders@), asks_stream(b0.sell_orders@))
                    == trade_pairs(self.transactions@.skip(n0)) + match_stream(
                    bids_stream(self.buy_orders@),
                    asks_stream(self.sell_orders@),
                ),
                match_bids_rem(bids_stream(b0.buy_orders@), asks_stream(b0.sell_orders@))
                    == match_bids_rem(bids_stream(self.buy_orders@), asks_stream(self.sell_orders@)),
                match_asks_rem(bids_stream(b0.buy_orders@), asks_stream(b0.sell_orders@))
                    == match_asks_rem(bids_stream(self.buy_orders@), asks_stream(self.sell_orders@)),
                b0.no_cross() ==> *self == b0,
            ensures
                self.wf(),
                self.no_cross(),
                self.total_orders == b0.total_orders,
                b0.transactions@.is_prefix_of(self.transactions@),
                side_qty(self.buy_orders@) + trades_qty(self.transactions@.skip(n0)) == side_qty(
                    b0.buy_orders@,
                ),
                side_qty(self.sell_orders@) + trades_qty(self.transactions@.skip(n0)) == side_qty(
                    b0.sell_orders@,
                ),
                forall|t: int|
                    n0 <= t < self.transactions@.len() ==> (
                    #[trigger] self.transactions@[t]).quantity > 0,
                self.transactions@.len() > n0 ==> b0.buy_orders@.len() > 0
                    && b0.sell_orders@.len() > 0,
                forall|t: int|
                    n0 <= t < self.transactions@.len() ==> b0.sell_orders@[0].price <= (
                    #[trigger] self.transactions@[t]).price <= b0.buy_orders@.last().price,
                forall|x: u128| #[trigger] self.has_id(x) ==> b0.has_id(x),
                side_eaten_back(b0.buy_orders@, self.buy_orders@),
                side_eaten_front(b0.sell_orders@, self.sell_orders@),
                match_stream(bids_stream(b0.buy_orders@), asks_stream(b0.sell_orders@))
                    == trade_pairs(self.transactions@.skip(n0)) + match_stream(
                    bids_stream(self.buy_orders@),
                    asks_stream(self.sell_orders@),
                ),
                match_stream(bids_stream(self.buy_orders@), asks_stream(self.sell_orders@))
                    == Seq::<(Price, u128)>::empty(),
                match_bids_rem(bids_stream(b0.buy_orders@), asks_stream(b0.sell_orders@))
                    == bids_stream(self.buy_orders@),
                match_asks_rem(bids_stream(b0.buy_orders@), asks_stream(b0.sell_orders@))
                    == asks_stream(self.sell_orders@),
                b0.no_cross() ==> *self == b0,
            decreases side_qty(self.buy_orders@),
        {
            proof {
                lemma_side_qty_nonneg(self.buy_orders@);
            }
            if self.buy_orders.len() == 0 || self.sell_orders.len() == 0 {
                proof {
                    if self.buy_orders@.len() == 0 {
                        assert(bids_stream(self.buy_orders@) =~= Seq::<Order>::empty());
                    }
                    if self.sell_orders@.len() == 0 {
                        assert(asks_stream(self.sell_orders@) =~= Seq::<Order>::empty());
                    }
                    assert(match_stream(bids_stream(self.buy_orders@), asks_stream(self.sell_orders@))
                        =~= Seq::<(Price, u128)>::empty());
                    assert(match_bids_rem(bids_stream(self.buy_orders@), asks_stream(self.sell_orders@))
                        == bids_stream(self.buy_orders@));
                    assert(match_asks_rem(bids_stream(self.buy_orders@), asks_stream(self.sell_orders@))
                        == asks_stream(self.sell_orders@));
                }
                break ;
            }
            let bi = self.buy_orders.len() - 1;
            let buy_price = self.buy_orders[bi].price;
            let sell_price = self.sell_orders[0].price;
            proof {
                assert(self.buy_orders@.last() == self.buy_orders@[bi as int]);
                assert(level_wf(self.buy_orders@[bi as int], true));
                assert(level_wf(self.sell_orders@[0], false));
                lemma_bids_stream_first(self.buy_orders@);
                lemma_asks_stream_first(self.sell_orders@);
            }
            if buy_price < sell_price {
                proof {
                    assert(match_stream(bids_stream(self.buy_orders@), asks_stream(self.sell_orders@))
                        =~= Seq::<(Price, u128)>::empty());
                    assert(match_bids_rem(bids_stream(self.buy_orders@), asks_stream(self.sell_orders@))
                        == bids_stream(self.buy_orders@));
                    assert(match_asks_rem(bids_stream(self.buy_orders@), asks_stream(self.sell_orders@))
                        == asks_stream(self.sell_orders@));
                }
                break ;
            }
            // The book is crossed, so it cannot equal a book that was not.
            proof {
                if b0.no_cross() {
                    assert(*self == b0);
                    assert(false);
                }
            }
            let buy_head_qty = self.buy_orders[bi].orders[0].quantity;
            let sell_head_qty = self.sell_orders[0].orders[0].quantity;
            let match_quantity = if buy_head_qty < sell_head_qty {
                buy_head_qty
            } else {
                sell_head_qty
            };
            proof {
                assert(order_ok(self.buy_orders@[bi as int].orders@[0], buy_price, true));
                assert(order_ok(self.sell_orders@[0].orders@[0], sell_price, false));
            }
            let ghost pre = *self;

            // Bid side: consume match_quantity from the head of the best level.
            let mut blevel = self.buy_orders.pop().unwrap();
            let bhead = blevel.orders.remove(0);
            let new_bid_qty = bhead.quantity - match_quantity;
            if new_bid_qty > 0 {
                let bh = Order {
                    buy_order: bhead.buy_order,
                    price: bhead.price,
                    quantity: new_bid_qty,
                    id: bhead.id,
                    time_created: bhead.time_created,
                };
                blevel.orders.insert(0, bh);
                let ghost lb = blevel;
                self.buy_orders.push(blevel);
                proof {
                    assert(lb.orders@ =~= pre.buy_orders@[bi as int].orders@.update(0, bh));
                    assert(self.buy_orders@ =~= pre.buy_orders@.update(bi as int, lb));
                    lemma_side_level_shrunk(
                        pre.buy_orders@,
                        self.buy_orders@,
                        bi as int,
                        0,
                        true,
                        pre.total_orders,
                    );
                    lemma_orders_qty_remove(pre.buy_orders@[bi as int].orders@, 0);
                    lemma_orders_qty_insert(
                        pre.buy_orders@[bi as int].orders@.remove(0),
                        0,
                        bh,
                    );
                    lemma_side_qty_update(pre.buy_orders@, bi as int, lb);
                    assert(side_qty(self.buy_orders@) == side_qty(pre.buy_orders@)
                        - match_quantity);
                    assert(level_trimmed_at(pre.buy_orders@[bi as int].orders@, lb.orders@, 0));
                    assert(level_trimmed(pre.buy_orders@[bi as int].orders@, lb.orders@));
                    assert(side_eaten_back_at(pre.buy_orders@, self.buy_orders@, 0));
                    assert(side_eaten_back(pre.buy_orders@, self.buy_orders@));
                    lemma_side_eaten_back_trans(b0.buy_orders@, pre.buy_orders@, self.buy_orders@);
                    assert(pre.buy_orders@.last() == pre.buy_orders@[bi as int]);
                    assert(self.buy_orders@.last() == lb);
                    lemma_bids_stream_dec(pre.buy_orders@, self.buy_orders@, bh);
                    assert(bh == order_minus(pre.buy_orders@[bi as int].orders@[0], match_quantity));
                    assert(bids_stream(self.buy_orders@) == bids_stream(pre.buy_orders@).update(
                        0,
                        order_minus(pre.buy_orders@[bi as int].orders@[0], match_quantity),
                    ));
                }
            } else {
                if blevel.orders.len() > 0 {
                    let ghost lb = blevel;
                    self.buy_orders.push(blevel);
                    proof {
                        assert(self.buy_orders@ =~= pre.buy_orders@.update(bi as int, lb));
                        lemma_side_level_shrunk(
                            pre.buy_orders@,
                            self.buy_orders@,
                            bi as int,
                            1,
                            true,
                            pre.total_orders,
                        );
                        lemma_orders_qty_remove(pre.buy_orders@[bi as int].orders@, 0);
                        lemma_side_qty_update(pre.buy_orders@, bi as int, lb);
                        assert(side_qty(self.buy_orders@) == side_qty(pre.buy_orders@)
                            - match_quantity);
                        assert(level_trimmed_at(
                            pre.buy_orders@[bi as int].orders@,
                            lb.orders@,
                            1,
                        ));
                        assert(level_trimmed(pre.buy_orders@[bi as int].orders@, lb.orders@));
                        assert(side_eaten_back_at(pre.buy_orders@, self.buy_orders@, 0));
                        assert(side_eaten_back(pre.buy_orders@, self.buy_orders@));
                        lemma_side_eaten_back_trans(
                            b0.buy_orders@,
                            pre.buy_orders@,
                            self.buy_orders@,
                        );
                        assert(pre.buy_orders@.last() == pre.buy_orders@[bi as int]);
                        assert(self.buy_orders@.last() == lb);
                        assert(pre.buy_orders@[bi as int].orders@.remove(0)
                            =~= pre.buy_orders@[bi as int].orders@.skip(1));
                        lemma_bids_stream_pop(pre.buy_orders@, self.buy_orders@);
                        assert(bids_stream(self.buy_orders@) == bids_stream(
                            pre.buy_orders@,
                        ).skip(1));
                    }
                } else {
                    proof {
                        assert(self.buy_orders@ =~= pre.buy_orders@.remove(bi as int));
                        assert(pre.buy_orders@.last() == pre.buy_orders@[bi as int]);
                        assert(pre.buy_orders@.remove(bi as int) =~= pre.buy_orders@.drop_last());
                        lemma_bids_stream_pop(pre.buy_orders@, self.buy_orders@);
                        assert(bids_stream(self.buy_orders@) == bids_stream(
                            pre.buy_orders@,
                        ).skip(1));
                        if self.buy_orders@.len() > 0 {
                            let ghost ll = self.buy_orders@.len() - 1;
                            assert(level_trimmed_at(
                                pre.buy_orders@[ll].orders@,
                                self.buy_orders@[ll].orders@,
                                0,
                            ));
                            assert(level_trimmed(
                                pre.buy_orders@[ll].orders@,
                                self.buy_orders@[ll].orders@,
                            ));
                        }
                        assert(side_eaten_back_at(pre.buy_orders@, self.buy_orders@, 1));
                        assert(side_eaten_back(pre.buy_orders@, self.buy_orders@));
                        lemma_side_eaten_back_trans(
                            b0.buy_orders@,
                            pre.buy_orders@,
                            self.buy_orders@,
                        );
                        lemma_side_level_removed(pre.buy_orders@, bi as int, true, pre.total_orders);
                        lemma_side_qty_remove(pre.buy_orders@, bi as int);
                        assert(pre.buy_orders@[bi as int].orders@.len() == 1);
                        assert(pre.buy_orders@[bi as int].orders@.drop_last()
                            =~= Seq::<Order>::empty());
                        assert(orders_qty(Seq::<Order>::empty()) == 0);
                        assert(pre.buy_orders@[bi as int].orders@.last() == bhead);
                        assert(orders_qty(pre.buy_orders@[bi as int].orders@)
                            == bhead.quantity as int);
                        assert(side_qty(self.buy_orders@) == side_qty(pre.buy_orders@)
                            - match_quantity);
                    }
                }
            }

            // Ask side: consume match_quantity from the head of the best level.
            let mut alevel = self.sell_orders.remove(0);
            let ahead = alevel.orders.remove(0);
            let new_ask_qty = ahead.quantity - match_quantity;
            if new_ask_qty > 0 {
                let ah = Order {
                    buy_order: ahead.buy_order,
                    price: ahead.price,
                    quantity: new_ask_qty,
                    id: ahead.id,
                    time_created: ahead.time_created,
                };
                alevel.orders.insert(0, ah);
                let ghost la = alevel;
                self.sell_orders.insert(0, alevel);
                proof {
                    assert(la.orders@ =~= pre.sell_orders@[0].orders@.update(0, ah));
                    assert(self.sell_orders@ =~= pre.sell_orders@.update(0, la));
                    lemma_side_level_shrunk(
                        pre.sell_orders@,
                        self.sell_orders@,
                        0,
                        0,
                        false,
                        pre.total_orders,
                    );
                    lemma_orders_qty_remove(pre.sell_orders@[0].orders@, 0);
                    lemma_orders_qty_insert(pre.sell_orders@[0].orders@.remove(0), 0, ah);
                    lemma_side_qty_update(pre.sell_orders@, 0, la);
                    assert(side_qty(self.sell_orders@) == side_qty(pre.sell_orders@)
                        - match_quantity);
                    assert(level_trimmed_at(pre.sell_orders@[0].orders@, la.orders@, 0));
                    assert(level_trimmed(pre.sell_orders@[0].orders@, la.orders@));
                    assert(side_eaten_front_at(pre.sell_orders@, self.sell_orders@, 0));
                    assert(side_eaten_front(pre.sell_orders@, self.sell_orders@));
                    lemma_side_eaten_front_trans(
                        b0.sell_orders@,
                        pre.sell_orders@,
                        self.sell_orders@,
                    );
                    assert(self.sell_orders@[0] == la);
                    lemma_asks_stream_dec(pre.sell_orders@, self.sell_orders@, ah);
                    assert(ah == order_minus(pre.sell_orders@[0].orders@[0], match_quantity));
                    assert(asks_stream(self.sell_orders@) == asks_stream(pre.sell_orders@).update(
                        0,
                        order_minus(pre.sell_orders@[0].orders@[0], match_quantity),
                    ));
                }
            } else {
                if alevel.orders.len() > 0 {
                    let ghost la = alevel;
                    self.sell_orders.insert(0, alevel);
                    proof {
                        assert(self.sell_orders@ =~= pre.sell_orders@.update(0, la));
                        lemma_side_level_shrunk(
                            pre.sell_orders@,
                            self.sell_orders@,
                            0,
                            1,
                            false,
                            pre.total_orders,
                        );
                        lemma_orders_qty_remove(pre.sell_orders@[0].orders@, 0);
                        lemma_side_qty_update(pre.sell_orders@, 0, la);
                        assert(side_qty(self.sell_orders@) == side_qty(pre.sell_orders@)
                            - match_quantity);
                        assert(level_trimmed_at(pre.sell_orders@[0].orders@, la.orders@, 1));
                        assert(level_trimmed(pre.sell_orders@[0].orders@, la.orders@));
                        assert(side_eaten_front_at(pre.sell_orders@, self.sell_orders@, 0));
                        assert(side_eaten_front(pre.sell_orders@, self.sell_orders@));
                        lemma_side_eaten_front_trans(
                            b0.sell_orders@,
                            pre.sell_orders@,
                            self.sell_orders@,
                        );
                        assert(self.sell_orders@[0] == la);
                        assert(pre.sell_orders@[0].orders@.remove(0)
                            =~= pre.sell_orders@[0].orders@.skip(1));
                        lemma_asks_stream_pop(pre.sell_orders@, self.sell_orders@);
                        assert(asks_stream(self.sell_orders@) == asks_stream(
                            pre.sell_orders@,
                        ).skip(1));
                    }
                } else {
                    proof {
                        assert(self.sell_orders@ =~= pre.sell_orders@.remove(0));
                        assert(pre.sell_orders@.remove(0) =~= pre.sell_orders@.skip(1));
                        lemma_asks_stream_pop(pre.sell_orders@, self.sell_orders@);
                        assert(asks_stream(self.sell_orders@) == asks_stream(
                            pre.sell_orders@,
                        ).skip(1));
                        if self.sell_orders@.len() > 0 {
                            assert(level_trimmed_at(
                                pre.sell_orders@[1].orders@,
                                self.sell_orders@[0].orders@,
                                0,
                            ));
                            assert(level_trimmed(
                                pre.sell_orders@[1].orders@,
                                self.sell_orders@[0].orders@,
                            ));
                        }
                        assert(side_eaten_front_at(pre.sell_orders@, self.sell_orders@, 1));
                        assert(side_eaten_front(pre.sell_orders@, self.sell_orders@));
                        lemma_side_eaten_front_trans(
                            b0.sell_orders@,
                            pre.sell_orders@,
                            self.sell_orders@,
                        );
                        lemma_side_level_removed(pre.sell_orders@, 0, false, pre.total_orders);
                        lemma_side_qty_remove(pre.sell_orders@, 0);
                        assert(pre.sell_orders@[0].orders@.len() == 1);
                        assert(pre.sell_orders@[0].orders@.drop_last() =~= Seq::<Order>::empty());
                        assert(orders_qty(Seq::<Order>::empty()) == 0);
                        assert(pre.sell_orders@[0].orders@.last() == ahead);
                        assert(orders_qty(pre.sell_orders@[0].orders@) == ahead.quantity as int);
                        assert(side_qty(self.sell_orders@) == side_qty(pre.sell_orders@)
                            - match_quantity);
                    }
                }
            }

            // Record the trade at the resting (ask) price.
            let trade = Transaction {
                price: sell_price,
                quantity: match_quantity,
                time: now_micros(),
            };
            self.transactions.push(trade);
            proof {
                // The two sides only lost ids, so uniqueness across sides holds.
                lemma_disjoint_shrunk(
                    pre.buy_orders@,
                    self.buy_orders@,
                    pre.sell_orders@,
                    self.sell_orders@,
                );
                assert forall|x: u128| #[trigger] self.has_id(x) implies b0.has_id(x) by {
                    assert(pre.has_id(x));
                }
                // Conservation bookkeeping for the new trade.
                assert(self.transactions@.skip(n0) =~= pre.transactions@.skip(n0).push(trade));
                lemma_trades_qty_push(pre.transactions@.skip(n0), trade);
                assert(bids_stream(pre.buy_orders@)[0] == pre.buy_orders@[bi as int].orders@[0]);
                assert(asks_stream(pre.sell_orders@)[0] == pre.sell_orders@[0].orders@[0]);
                lemma_match_stream_step(
                    bids_stream(pre.buy_orders@),
                    asks_stream(pre.sell_orders@),
                    bids_stream(self.buy_orders@),
                    asks_stream(self.sell_orders@),
                );
                assert(match_stream(bids_stream(pre.buy_orders@), asks_stream(pre.sell_orders@))
                    == seq![(sell_price, match_quantity)] + match_stream(
                    bids_stream(self.buy_orders@),
                    asks_stream(self.sell_orders@),
                ));
                assert(trade_pairs(self.transactions@.skip(n0)) =~= trade_pairs(
                    pre.transactions@.skip(n0),
                ).push((sell_price, match_quantity)));
                assert(trade_pairs(pre.transactions@.skip(n0)) + (seq![
                    (sell_price, match_quantity),
                ] + match_stream(bids_stream(self.buy_orders@), asks_stream(self.sell_orders@)))
                    =~= trade_pairs(self.transactions@.skip(n0)) + match_stream(
                    bids_stream(self.buy_orders@),
                    asks_stream(self.sell_orders@),
                ));
                assert(b0.transactions@.is_prefix_of(self.transactions@)) by {
                    assert(self.transactions@.subrange(0, n0) =~= pre.transactions@.subrange(
                        0,
                        n0,
                    ));
                }
                lemma_side_qty_nonneg(self.buy_orders@);
            }
        }
        proof {
            assert(trade_pairs(self.transactions@.skip(n0)) + Seq::<(Price, u128)>::empty()
                =~= trade_pairs(self.transactions@.skip(n0)));
            assert(b0.matched(*self));
        }
    }
}

} // verus!
