use vstd::prelude::*;

verus! {

/// An order-submission response as the HTTP host layer returns it.
#[derive(Clone, Debug, PartialEq, Eq)]
pub struct CreateOrderResponse {
    pub status: String,
    pub order_id: u128,
}

/// An order-submission request as the HTTP host layer accepts it.
#[derive(Clone, Copy, Debug, PartialEq, Eq, Structural)]
pub struct CreateOrder {
    pub buy_order: bool,
    pub price: u64,
    pub quantity: u64,
}

} // verus!
