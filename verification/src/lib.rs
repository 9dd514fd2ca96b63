use vstd::prelude::*;

mod clock;

pub mod api;
pub mod book;
pub mod cancel;
pub mod laws;
pub mod lemmas;
pub mod matching;
pub mod model;
pub mod query;
pub mod submit;

pub use api::{CreateOrder, CreateOrderResponse};
pub use book::{Order, OrderBook, Price, PriceLevel, Transaction};

verus! {

/// The reasons an order-book operation can fail. All are recoverable and
/// returned to the caller; none aborts the process.
#[derive(Clone, Copy, Debug, PartialEq, Eq, Structural)]
pub enum OrderBookError {
    /// An order's quantity must be strictly positive.
    ZeroQuantity,
    /// The caller invoked the entry point for the opposite side.
    WrongSide,
    /// The id is unknown, already filled, or already canceled.
    NotFound,
}

} // verus!
