use vstd::prelude::*;

use crate::clock::now_micros;

verus! {

/// The smallest price unit of the single traded instrument.
pub type Price = u64;

/// A limit order resting in (or entering) the book.
///
/// `id` is assigned at submission, is unique for the book's lifetime and is
/// never reused. `time_created` is informational only: ordering within a
/// price level is by queue position, never by timestamp comparison.
#[derive(Clone, Copy, Debug, PartialEq, Eq, Structural)]
pub struct Order {
    pub buy_order: bool,
    pub price: Price,
    pub quantity: u128,
    pub id: u128,
    pub time_created: u64,
}

/// One executed trade. Immutable once created; the book's trade log is
/// append-only and never rotated by the core.
#[derive(Clone, Copy, Debug, PartialEq, Eq, Structural)]
pub struct Transaction {
    pub price: Price,
    pub quantity: u128,
    pub time: u64,
}

/// A FIFO queue of the orders resting at one price.
#[derive(Clone, Debug, PartialEq, Eq)]
pub struct PriceLevel {
    pub price: Price,
    pub orders: Vec<Order>,
}

/// A single-instrument limit order book: a bid side and an ask side, each a
/// price-sorted sequence of levels, a trade log, and a monotonic id counter.
///
/// `total_orders` doubles as "next id to assign" and "historical submission
/// count"; it is unaffected by cancellations.
#[derive(Clone, Debug, PartialEq, Eq)]
pub struct OrderBook {
    pub total_orders: u128,
    pub buy_orders: Vec<PriceLevel>,
    pub sell_orders: Vec<PriceLevel>,
    pub transactions: Vec<Transaction>,
}

impl Order {
    /// A placeholder order with every field at its neutral value.
    pub fn new() -> (r: Self)
        ensures
            r.buy_order == true,
            r.price == 0,
            r.quantity == 0,
            r.id == 0,
    {
        Order { buy_order: true, price: 0, quantity: 0, id: 0, time_created: now_micros() }
    }
}

impl Transaction {
    /// A placeholder trade with price and quantity zero.
    pub fn new() -> (r: Self)
        ensures
            r.price == 0,
            r.quantity == 0,
    {
        Transaction { price: 0, quantity: 0, time: now_micros() }
    }
}

impl OrderBook {
    /// An empty book: no resting orders, no trades, counter at zero.
    pub fn build() -> (r: Self)
        ensures
            r.wf(),
            r.no_cross(),
            r.total_orders == 0,
            r.buy_orders@.len() == 0,
            r.sell_orders@.len() == 0,
            r.transactions@.len() == 0,
    {
        OrderBook {
            total_orders: 0,
            buy_orders: Vec::new(),
            sell_orders: Vec::new(),
            transactions: Vec::new(),
        }
    }

    /// The historical submission count, which is also the next id that will
    /// be assigned. Filled and canceled orders stay counted.
    pub fn get_tot_orders(&self) -> (r: &u128)
        ensures
            *r == self.total_orders,
    {
        &self.total_orders
    }

    /// Market orders are outside this book's scope; the call has no effect.
    pub fn market_buy(&self, quantity: u128) {
    }

    /// Market orders are outside this book's scope; the call has no effect.
    pub fn market_sell(&self) {
    }

    /// Rendering a depth chart is a host-layer concern; the call has no effect.
    pub fn display_depth_chart(&self) {
    }
}

} // verus!
