use vstd::prelude::*;

use crate::book::{Order, OrderBook, Price, PriceLevel, Transaction};

verus! {

/// An order fits the level it rests at: same price, right side, and a
/// strictly positive remaining quantity (an order reaching 0 is removed in
/// the same step).
pub open spec fn order_ok(o: Order, price: Price, is_buy: bool) -> bool {
    o.price == price && o.buy_order == is_buy && o.quantity > 0
}

/// A price level is never empty, and every order in it fits the level.
pub open spec fn level_wf(l: PriceLevel, is_buy: bool) -> bool {
    &&& l.orders@.len() > 0
    &&& forall|k: int|
        0 <= k < l.orders@.len() ==> order_ok(#[trigger] l.orders@[k], l.price, is_buy)
}

/// One side of the book: well-formed levels at strictly increasing prices.
/// The best bid is thus the last level of the bid side, and the best ask the
/// first level of the ask side.
pub open spec fn side_wf(side: Seq<PriceLevel>, is_buy: bool) -> bool {
    &&& forall|i: int| 0 <= i < side.len() ==> level_wf(#[trigger] side[i], is_buy)
    &&& forall|i: int, j: int|
        0 <= i < j < side.len() ==> (#[trigger] side[i]).price < (#[trigger] side[j]).price
}

/// Some order with this id rests on this side.
pub open spec fn side_has_id(side: Seq<PriceLevel>, id: u128) -> bool {
    exists|i: int, k: int|
        0 <= i < side.len() && 0 <= k < side[i].orders@.len()
            && (#[trigger] side[i].orders@[k]).id == id
}

/// This exact order (all fields) rests on this side.
pub open spec fn side_has_order(side: Seq<PriceLevel>, o: Order) -> bool {
    exists|i: int, k: int|
        0 <= i < side.len() && 0 <= k < side[i].orders@.len()
            && (#[trigger] side[i].orders@[k]) == o
}

/// Every id resting on this side is below `n` (ids are assigned from a
/// counter that has reached `n`).
pub open spec fn side_ids_lt(side: Seq<PriceLevel>, n: u128) -> bool {
    forall|i: int, k: int|
        0 <= i < side.len() && 0 <= k < side[i].orders@.len()
            ==> (#[trigger] side[i].orders@[k]).id < n
}

/// No two distinct resting positions on this side hold the same id.
pub open spec fn side_ids_unique(side: Seq<PriceLevel>) -> bool {
    forall|i1: int, k1: int, i2: int, k2: int|
        0 <= i1 < side.len() && 0 <= k1 < side[i1].orders@.len() && 0 <= i2 < side.len() && 0 <= k2
            < side[i2].orders@.len() && (i1 != i2 || k1 != k2)
            ==> (#[trigger] side[i1].orders@[k1]).id != (#[trigger] side[i2].orders@[k2]).id
}

/// No id rests on both sides at once (so in particular an order can never
/// match itself).
pub open spec fn sides_ids_disjoint(bids: Seq<PriceLevel>, asks: Seq<PriceLevel>) -> bool {
    forall|id: u128| #[trigger] side_has_id(bids, id) ==> !side_has_id(asks, id)
}

/// The total quantity resting in a queue of orders.
pub open spec fn orders_qty(s: Seq<Order>) -> int
    decreases s.len(),
{
    if s.len() == 0 {
        0
    } else {
        orders_qty(s.drop_last()) + s.last().quantity
    }
}

/// The total quantity resting on one side of the book.
pub open spec fn side_qty(side: Seq<PriceLevel>) -> int
    decreases side.len(),
{
    if side.len() == 0 {
        0
    } else {
        side_qty(side.drop_last()) + orders_qty(side.last().orders@)
    }
}

/// The total quantity executed by a sequence of trades.
pub open spec fn trades_qty(ts: Seq<Transaction>) -> int
    decreases ts.len(),
{
    if ts.len() == 0 {
        0
    } else {
        trades_qty(ts.drop_last()) + ts.last().quantity
    }
}

/// `t` is `s` with the order `o` resting at the tail of the level at its
/// price: either appended to the level that already had that price (position
/// `j`), or in a fresh one-order level placed between its price neighbours.
pub open spec fn side_inserted_at(s: Seq<PriceLevel>, t: Seq<PriceLevel>, j: int, o: Order) -> bool {
    ||| {
        &&& 0 <= j < s.len()
        &&& s[j].price == o.price
        &&& t.len() == s.len()
        &&& t[j].price == o.price
        &&& t[j].orders@ == s[j].orders@.push(o)
        &&& forall|i: int| 0 <= i < t.len() && i != j ==> t[i] == s[i]
    }
    ||| {
        &&& 0 <= j <= s.len()
        &&& t.len() == s.len() + 1
        &&& t[j].price == o.price
        &&& t[j].orders@.len() == 1
        &&& t[j].orders@[0] == o
        &&& (j > 0 ==> s[j - 1].price < o.price)
        &&& (j < s.len() ==> o.price < s[j].price)
        &&& forall|i: int| 0 <= i < j ==> t[i] == s[i]
        &&& forall|i: int| j < i < t.len() ==> t[i] == s[i - 1]
    }
}

/// `t` is `s` with the order `o` queued at the tail of the level at `o.price`
/// (price-time priority: a newcomer never jumps the queue).
pub open spec fn side_inserted(s: Seq<PriceLevel>, t: Seq<PriceLevel>, o: Order) -> bool {
    exists|j: int| #[trigger] side_inserted_at(s, t, j, o)
}

/// `b` is what remains of the FIFO queue `a` after consuming strictly from
/// the front: the first `d` orders are gone, the next one may have had part
/// of its quantity taken, and everything behind it is untouched.
pub open spec fn level_trimmed_at(a: Seq<Order>, b: Seq<Order>, d: int) -> bool {
    &&& 0 <= d <= a.len()
    &&& b.len() + d == a.len()
    &&& forall|k: int| 1 <= k < b.len() ==> b[k] == a[k + d]
    &&& b.len() > 0 ==> {
        &&& b[0].id == a[d].id
        &&& b[0].price == a[d].price
        &&& b[0].buy_order == a[d].buy_order
        &&& b[0].time_created == a[d].time_created
        &&& b[0].quantity <= a[d].quantity
    }
}

/// `b` is a front-trimmed remainder of the FIFO queue `a`: an order strictly
/// behind another can never have been consumed before the one ahead of it.
pub open spec fn level_trimmed(a: Seq<Order>, b: Seq<Order>) -> bool {
    exists|d: int| #[trigger] level_trimmed_at(a, b, d)
}

/// `t` is what remains of the ask side `s` after consumption strictly from
/// its cheap end: the `d` cheapest levels are gone, the next one may have had
/// the front of its queue consumed, and every level behind is untouched.
pub open spec fn side_eaten_front_at(s: Seq<PriceLevel>, t: Seq<PriceLevel>, d: int) -> bool {
    &&& 0 <= d <= s.len()
    &&& t.len() + d == s.len()
    &&& forall|i: int| 1 <= i < t.len() ==> t[i] == s[i + d]
    &&& t.len() > 0 ==> t[0].price == s[d].price && level_trimmed(s[d].orders@, t[0].orders@)
}

/// `t` is what remains of `s` after consumption strictly from its front end
/// (for the ask side: best price first).
pub open spec fn side_eaten_front(s: Seq<PriceLevel>, t: Seq<PriceLevel>) -> bool {
    exists|d: int| #[trigger] side_eaten_front_at(s, t, d)
}

/// `t` is what remains of the bid side `s` after consumption strictly from
/// its expensive end: the `d` dearest levels are gone, the next one may have
/// had the front of its queue consumed, and every level before is untouched.
pub open spec fn side_eaten_back_at(s: Seq<PriceLevel>, t: Seq<PriceLevel>, d: int) -> bool {
    &&& 0 <= d <= s.len()
    &&& t.len() + d == s.len()
    &&& forall|i: int| 0 <= i < t.len() - 1 ==> t[i] == s[i]
    &&& t.len() > 0 ==> t[t.len() - 1].price == s[t.len() - 1].price && level_trimmed(
        s[t.len() - 1].orders@,
        t[t.len() - 1].orders@,
    )
}

/// `t` is what remains of `s` after consumption strictly from its back end
/// (for the bid side: best price first).
pub open spec fn side_eaten_back(s: Seq<PriceLevel>, t: Seq<PriceLevel>) -> bool {
    exists|d: int| #[trigger] side_eaten_back_at(s, t, d)
}

/// The orders of the ask side in consumption order: cheapest level first,
/// oldest order first within a level.
pub open spec fn asks_stream(side: Seq<PriceLevel>) -> Seq<Order>
    decreases side.len(),
{
    if side.len() == 0 {
        Seq::empty()
    } else {
        side[0].orders@ + asks_stream(side.skip(1))
    }
}

/// The orders of the bid side in consumption order: dearest level first,
/// oldest order first within a level.
pub open spec fn bids_stream(side: Seq<PriceLevel>) -> Seq<Order>
    decreases side.len(),
{
    if side.len() == 0 {
        Seq::empty()
    } else {
        side.last().orders@ + bids_stream(side.drop_last())
    }
}

/// A trade log reduced to what the matching algorithm determines: the
/// (price, quantity) of each trade in order. Timestamps are informational
/// and depend on the clock alone.
pub open spec fn trade_pairs(ts: Seq<Transaction>) -> Seq<(Price, u128)> {
    ts.map_values(|t: Transaction| (t.price, t.quantity))
}

/// `o` after `q` of its quantity was consumed.
pub open spec fn order_minus(o: Order, q: u128) -> Order {
    Order {
        buy_order: o.buy_order,
        price: o.price,
        quantity: (o.quantity - q) as u128,
        id: o.id,
        time_created: o.time_created,
    }
}

/// The exact trade sequence the matching algorithm executes, as a function
/// of the two consumption streams: while both streams have a head and the
/// head prices cross, trade the smaller of the two head quantities at the
/// ask head's (resting) price, dropping whichever head ran dry.
pub open spec fn match_stream(bids: Seq<Order>, asks: Seq<Order>) -> Seq<(Price, u128)>
    decreases bids.len() + asks.len(),
{
    if bids.len() == 0 || asks.len() == 0 {
        Seq::empty()
    } else if bids[0].price < asks[0].price {
        Seq::empty()
    } else if bids[0].quantity < asks[0].quantity {
        seq![(asks[0].price, bids[0].quantity)] + match_stream(
            bids.skip(1),
            asks.update(0, order_minus(asks[0], bids[0].quantity)),
        )
    } else if asks[0].quantity < bids[0].quantity {
        seq![(asks[0].price, asks[0].quantity)] + match_stream(
            bids.update(0, order_minus(bids[0], asks[0].quantity)),
            asks.skip(1),
        )
    } else {
        seq![(asks[0].price, asks[0].quantity)] + match_stream(bids.skip(1), asks.skip(1))
    }
}

/// What remains of the bid consumption stream after the matching algorithm
/// has drained the crossing liquidity from the two streams.
pub open spec fn match_bids_rem(bids: Seq<Order>, asks: Seq<Order>) -> Seq<Order>
    decreases bids.len() + asks.len(),
{
    if bids.len() == 0 || asks.len() == 0 {
        bids
    } else if bids[0].price < asks[0].price {
        bids
    } else if bids[0].quantity < asks[0].quantity {
        match_bids_rem(bids.skip(1), asks.update(0, order_minus(asks[0], bids[0].quantity)))
    } else if asks[0].quantity < bids[0].quantity {
        match_bids_rem(bids.update(0, order_minus(bids[0], asks[0].quantity)), asks.skip(1))
    } else {
        match_bids_rem(bids.skip(1), asks.skip(1))
    }
}

/// What remains of the ask consumption stream after the matching algorithm
/// has drained the crossing liquidity from the two streams.
pub open spec fn match_asks_rem(bids: Seq<Order>, asks: Seq<Order>) -> Seq<Order>
    decreases bids.len() + asks.len(),
{
    if bids.len() == 0 || asks.len() == 0 {
        asks
    } else if bids[0].price < asks[0].price {
        asks
    } else if bids[0].quantity < asks[0].quantity {
        match_asks_rem(bids.skip(1), asks.update(0, order_minus(asks[0], bids[0].quantity)))
    } else if asks[0].quantity < bids[0].quantity {
        match_asks_rem(bids.update(0, order_minus(bids[0], asks[0].quantity)), asks.skip(1))
    } else {
        match_asks_rem(bids.skip(1), asks.skip(1))
    }
}

/// `t` is `s` with exactly the order at queue position `k` of level `p`
/// taken out: the level's key leaves the side if its queue becomes empty,
/// and every other order keeps its place.
pub open spec fn side_removed_at(s: Seq<PriceLevel>, t: Seq<PriceLevel>, p: int, k: int) -> bool {
    &&& 0 <= p < s.len()
    &&& 0 <= k < s[p].orders@.len()
    &&& if s[p].orders@.len() == 1 {
        k == 0 && t == s.remove(p)
    } else {
        &&& t.len() == s.len()
        &&& t[p].price == s[p].price
        &&& t[p].orders@ == s[p].orders@.remove(k)
        &&& forall|i: int| 0 <= i < t.len() && i != p ==> t[i] == s[i]
    }
}

impl OrderBook {
    /// The book's structural invariant, true between operations: both sides
    /// well-formed and price-sorted, every resting id below the counter, no
    /// id resting twice.
    pub open spec fn wf(self) -> bool {
        &&& side_wf(self.buy_orders@, true)
        &&& side_wf(self.sell_orders@, false)
        &&& side_ids_lt(self.buy_orders@, self.total_orders)
        &&& side_ids_lt(self.sell_orders@, self.total_orders)
        &&& side_ids_unique(self.buy_orders@)
        &&& side_ids_unique(self.sell_orders@)
        &&& sides_ids_disjoint(self.buy_orders@, self.sell_orders@)
    }

    /// The book is not crossed: the best bid is below the best ask, or one
    /// side is empty.
    pub open spec fn no_cross(self) -> bool {
        ||| self.buy_orders@.len() == 0
        ||| self.sell_orders@.len() == 0
        ||| self.buy_orders@.last().price < self.sell_orders@[0].price
    }

    /// Some order with this id rests somewhere in the book.
    pub open spec fn has_id(self, id: u128) -> bool {
        side_has_id(self.buy_orders@, id) || side_has_id(self.sell_orders@, id)
    }

    /// This exact order rests somewhere in the book.
    pub open spec fn has_order(self, o: Order) -> bool {
        side_has_order(self.buy_orders@, o) || side_has_order(self.sell_orders@, o)
    }

    /// The total quantity resting on the bid side.
    pub open spec fn bid_qty(self) -> int {
        side_qty(self.buy_orders@)
    }

    /// The total quantity resting on the ask side.
    pub open spec fn ask_qty(self) -> int {
        side_qty(self.sell_orders@)
    }

    /// The quantity executed by the trades recorded after the first `n`.
    pub open spec fn trades_qty_from(self, n: int) -> int {
        trades_qty(self.transactions@.skip(n))
    }

    /// The full effect of one run of the matching algorithm on a book in
    /// state `self`, leaving it in state `post`: the id counter stands, the
    /// trade log only grows, the quantity taken from each side equals the
    /// total quantity of the new trades (conservation), every new trade is
    /// for a positive quantity at a price between the old best ask and the
    /// old best bid, no order appears from nowhere, an uncrossed book is left
    /// exactly as it was, consumption is strictly best-price-first on both
    /// sides and strictly oldest-first within a level (price-time priority),
    /// and the new trades are exactly — in order, price and quantity — what
    /// `match_stream` computes from the two consumption streams.
    pub open spec fn matched(self, post: OrderBook) -> bool {
        &&& post.total_orders == self.total_orders
        &&& self.transactions@.is_prefix_of(post.transactions@)
        &&& post.bid_qty() + post.trades_qty_from(self.transactions@.len() as int) == self.bid_qty()
        &&& post.ask_qty() + post.trades_qty_from(self.transactions@.len() as int) == self.ask_qty()
        &&& forall|t: int|
            self.transactions@.len() <= t < post.transactions@.len() ==> (
            #[trigger] post.transactions@[t]).quantity > 0
        &&& (post.transactions@.len() > self.transactions@.len() ==> self.buy_orders@.len() > 0
            && self.sell_orders@.len() > 0)
        &&& forall|t: int|
            self.transactions@.len() <= t < post.transactions@.len()
                ==> self.sell_orders@[0].price <= (#[trigger] post.transactions@[t]).price
                <= self.buy_orders@.last().price
        &&& forall|x: u128| #[trigger] post.has_id(x) ==> self.has_id(x)
        &&& side_eaten_back(self.buy_orders@, post.buy_orders@)
        &&& side_eaten_front(self.sell_orders@, post.sell_orders@)
        &&& trade_pairs(post.transactions@.skip(self.transactions@.len() as int)) == match_stream(
            bids_stream(self.buy_orders@),
            asks_stream(self.sell_orders@),
        )
        &&& bids_stream(post.buy_orders@) == match_bids_rem(
            bids_stream(self.buy_orders@),
            asks_stream(self.sell_orders@),
        )
        &&& asks_stream(post.sell_orders@) == match_asks_rem(
            bids_stream(self.buy_orders@),
            asks_stream(self.sell_orders@),
        )
        &&& (self.no_cross() ==> post == self)
    }

    /// The first half of a successful submission: `mid` is `self` with the
    /// fresh order `o` — carrying the next id — queued at the tail of the
    /// level at its price on its own side, the counter advanced, and nothing
    /// else touched. The submission entry points state that the final book is
    /// some such `mid` after one full run of the matching algorithm.
    pub open spec fn submit_step(self, mid: OrderBook, o: Order) -> bool {
        &&& mid.total_orders == self.total_orders + 1
        &&& o.id == self.total_orders
        &&& o.quantity > 0
        &&& mid.transactions@ == self.transactions@
        &&& if o.buy_order {
            &&& side_inserted(self.buy_orders@, mid.buy_orders@, o)
            &&& mid.sell_orders@ == self.sell_orders@
        } else {
            &&& side_inserted(self.sell_orders@, mid.sell_orders@, o)
            &&& mid.buy_orders@ == self.buy_orders@
        }
    }

    /// The full effect of `cancel(id)` on a book in state `self`, leaving it
    /// in state `post` with result `r`: it succeeds exactly when some order
    /// with that id rests in the book; on success it returns that order with
    /// its remaining quantity and removes it — and nothing else — from the
    /// book; on failure the book is untouched. The counter and the trade log
    /// never change: cancellation is not a submission and triggers no match.
    pub open spec fn cancel_post(
        self,
        post: OrderBook,
        id: u128,
        r: Result<Order, crate::OrderBookError>,
    ) -> bool {
        &&& post.total_orders == self.total_orders
        &&& post.transactions@ == self.transactions@
        &&& (r is Ok <==> self.has_id(id))
        &&& match r {
            Ok(o) => {
                &&& o.id == id
                &&& o.quantity > 0
                &&& self.has_order(o)
                &&& !post.has_id(id)
                &&& forall|x: u128| x != id ==> (#[trigger] post.has_id(x) <==> self.has_id(x))
                &&& post.bid_qty() + (if o.buy_order {
                    o.quantity as int
                } else {
                    0
                }) == self.bid_qty()
                &&& post.ask_qty() + (if o.buy_order {
                    0
                } else {
                    o.quantity as int
                }) == self.ask_qty()
                &&& if o.buy_order {
                    &&& post.sell_orders@ == self.sell_orders@
                    &&& exists|p: int, k: int|
                        #[trigger] side_removed_at(self.buy_orders@, post.buy_orders@, p, k)
                            && self.buy_orders@[p].orders@[k] == o
                } else {
                    &&& post.buy_orders@ == self.buy_orders@
                    &&& exists|p: int, k: int|
                        #[trigger] side_removed_at(self.sell_orders@, post.sell_orders@, p, k)
                            && self.sell_orders@[p].orders@[k] == o
                }
            },
            Err(e) => e == crate::OrderBookError::NotFound && post == self,
        }
    }
}

} // verus!
