use vstd::prelude::*;

use crate::book::{Order, OrderBook};
use crate::OrderBookError;

verus! {

/// Law: cancellation is exactly-once-successful. A cancel that succeeded took
/// the order with that id out of the book, so a second cancel of the same id
/// always fails with `NotFound` and leaves the book unchanged.
///
/// `cancel_post` is the full effect that `cancel`'s contract states, so the
/// two hypotheses describe two consecutive calls of `cancel(id)`.
pub proof fn lemma_cancel_exactly_once(
    b0: OrderBook,
    b1: OrderBook,
    b2: OrderBook,
    id: u128,
    r1: Result<Order, OrderBookError>,
    r2: Result<Order, OrderBookError>,
)
    requires
        b0.cancel_post(b1, id, r1),
        r1 is Ok,
        b1.cancel_post(b2, id, r2),
    ensures
        r2 == Err::<Order, OrderBookError>(OrderBookError::NotFound),
        b2 == b1,
{
    assert(!b1.has_id(id));
}

} // verus!
