use clob::{CreateOrder, CreateOrderResponse, Order, OrderBook, OrderBookError, Transaction};

fn bid_total(book: &OrderBook) -> u128 {
    book.buy_orders.iter().flat_map(|l| l.orders.iter()).map(|o| o.quantity).sum()
}

fn ask_total(book: &OrderBook) -> u128 {
    book.sell_orders.iter().flat_map(|l| l.orders.iter()).map(|o| o.quantity).sum()
}

fn trade_total(book: &OrderBook) -> u128 {
    book.transactions.iter().map(|t| t.quantity).sum()
}

fn uncrossed(book: &OrderBook) -> bool {
    book.buy_orders.is_empty() || book.sell_orders.is_empty()
        || book.buy_orders.last().unwrap().price < book.sell_orders.first().unwrap().price
}

#[test]
fn scenario_partial_buy_against_resting_sell() {
    let mut a = OrderBook::build();
    assert_eq!(a.sell(false, 100, 10), Ok(0));
    assert_eq!(a.buy(true, 100, 5), Ok(1));

    assert_eq!(a.transactions.len(), 1);
    assert_eq!(a.transactions[0].price, 100);
    assert_eq!(a.transactions[0].quantity, 5);
    assert_eq!(a.buy_orders.len(), 0);
    assert_eq!(a.sell_orders.len(), 1);
    assert_eq!(a.sell_orders[0].price, 100);
    assert_eq!(a.sell_orders[0].orders.len(), 1);
    assert_eq!(a.sell_orders[0].orders[0].quantity, 5);
}

#[test]
fn scenario_partial_sell_against_resting_buy() {
    let mut a = OrderBook::build();
    assert_eq!(a.buy(true, 100, 10), Ok(0));
    assert_eq!(a.sell(false, 100, 5), Ok(1));

    assert_eq!(a.transactions.len(), 1);
    assert_eq!(a.transactions[0].price, 100);
    assert_eq!(a.transactions[0].quantity, 5);
    assert_eq!(a.sell_orders.len(), 0);
    assert_eq!(a.buy_orders.len(), 1);
    assert_eq!(a.buy_orders[0].price, 100);
    assert_eq!(a.buy_orders[0].orders.len(), 1);
    assert_eq!(a.buy_orders[0].orders[0].quantity, 5);
}

#[test]
fn scenario_exact_match_clears_both_sides() {
    let mut a = OrderBook::build();
    assert_eq!(a.sell(false, 100, 10), Ok(0));
    assert_eq!(a.buy(true, 100, 10), Ok(1));

    assert_eq!(a.transactions.len(), 1);
    assert_eq!(a.transactions[0].price, 100);
    assert_eq!(a.transactions[0].quantity, 10);
    assert_eq!(a.buy_orders.len(), 0);
    assert_eq!(a.sell_orders.len(), 0);
}

#[test]
fn scenario_no_cross_rests_both_orders() {
    let mut a = OrderBook::build();
    assert_eq!(a.sell(false, 100, 10), Ok(0));
    assert_eq!(a.buy(true, 90, 5), Ok(1));

    assert_eq!(a.transactions.len(), 0);
    assert_eq!(a.buy_orders.len(), 1);
    assert_eq!(a.buy_orders[0].price, 90);
    assert_eq!(a.buy_orders[0].orders[0].quantity, 5);
    assert_eq!(a.sell_orders.len(), 1);
    assert_eq!(a.sell_orders[0].price, 100);
    assert_eq!(a.sell_orders[0].orders[0].quantity, 10);
}

#[test]
fn scenario_cancel_is_exactly_once_successful() {
    let mut a = OrderBook::build();
    assert_eq!(a.buy(true, 100, 1), Ok(0));

    let first = a.cancel(0);
    assert!(first.is_ok());
    let order = first.unwrap();
    assert_eq!(order.id, 0);
    assert_eq!(order.price, 100);
    assert_eq!(order.quantity, 1);
    assert!(order.buy_order);

    assert_eq!(a.cancel(0), Err(OrderBookError::NotFound));
}

#[test]
fn zero_quantity_is_rejected_without_any_change() {
    let mut a = OrderBook::build();
    assert_eq!(a.buy(true, 100, 0), Err(OrderBookError::ZeroQuantity));
    assert_eq!(a.sell(false, 100, 0), Err(OrderBookError::ZeroQuantity));
    assert_eq!(a, OrderBook::build());

    let _ = a.sell(false, 50, 7);
    let snapshot = a.clone();
    assert_eq!(a.buy(true, 60, 0), Err(OrderBookError::ZeroQuantity));
    assert_eq!(a, snapshot);
}

#[test]
fn wrong_side_is_rejected_without_any_change() {
    let mut a = OrderBook::build();
    assert_eq!(a.buy(false, 100, 5), Err(OrderBookError::WrongSide));
    assert_eq!(a.sell(true, 100, 5), Err(OrderBookError::WrongSide));
    assert_eq!(a, OrderBook::build());
}

#[test]
fn fifo_within_level_fills_earliest_first() {
    let mut a = OrderBook::build();
    assert_eq!(a.sell(false, 100, 5), Ok(0));
    assert_eq!(a.sell(false, 100, 3), Ok(1));
    assert_eq!(a.sell(false, 100, 7), Ok(2));

    assert_eq!(a.buy(true, 100, 4), Ok(3));

    // The earliest sell was hit first and is now partially filled.
    assert_eq!(a.get_sell_order_quantity(0), Ok(1));
    assert_eq!(a.get_sell_order_quantity(1), Ok(3));
    assert_eq!(a.get_sell_order_quantity(2), Ok(7));
    assert_eq!(a.transactions.len(), 1);
    assert_eq!(a.transactions[0].quantity, 4);
    assert_eq!(a.transactions[0].price, 100);
}

#[test]
fn conservation_across_a_sweep_of_the_ask_side() {
    let mut a = OrderBook::build();
    assert_eq!(a.sell(false, 100, 10), Ok(0));
    assert_eq!(a.sell(false, 101, 5), Ok(1));
    assert_eq!(a.buy(true, 101, 12), Ok(2));

    // 12 units changed hands: the ask side lost exactly the traded quantity,
    // and the aggressor was fully filled.
    assert_eq!(trade_total(&a), 12);
    assert_eq!(ask_total(&a), 3);
    assert_eq!(bid_total(&a), 0);
    // The sweep hit the cheaper level first.
    assert_eq!(a.transactions[0].price, 100);
    assert_eq!(a.transactions[0].quantity, 10);
    assert_eq!(a.transactions[1].price, 101);
    assert_eq!(a.transactions[1].quantity, 2);
}

#[test]
fn book_is_never_left_crossed() {
    let mut a = OrderBook::build();
    let _ = a.sell(false, 105, 4);
    assert!(uncrossed(&a));
    let _ = a.sell(false, 100, 10);
    assert!(uncrossed(&a));
    let _ = a.buy(true, 102, 6);
    assert!(uncrossed(&a));
    let _ = a.buy(true, 99, 3);
    assert!(uncrossed(&a));
    let _ = a.cancel(3);
    assert!(uncrossed(&a));
    let _ = a.buy(true, 200, 11);
    assert!(uncrossed(&a));
}

#[test]
fn cheaper_ask_level_is_consumed_before_a_dearer_one() {
    let mut a = OrderBook::build();
    assert_eq!(a.sell(false, 101, 5), Ok(0));
    assert_eq!(a.sell(false, 100, 3), Ok(1));
    assert_eq!(a.buy(true, 101, 4), Ok(2));

    // Best price first: the level at 100 went before the one at 101.
    assert_eq!(a.transactions.len(), 2);
    assert_eq!(a.transactions[0].price, 100);
    assert_eq!(a.transactions[0].quantity, 3);
    assert_eq!(a.transactions[1].price, 101);
    assert_eq!(a.transactions[1].quantity, 1);
    assert_eq!(a.buy_orders.len(), 0);
    assert_eq!(a.get_sell_order_quantity(0), Ok(4));
    assert_eq!(a.get_sell_order_quantity(1), Err(OrderBookError::NotFound));
}

#[test]
fn extreme_quantities_match_without_overflow() {
    let mut a = OrderBook::build();
    assert_eq!(a.sell(false, 1, u128::MAX), Ok(0));
    assert_eq!(a.buy(true, 1, u128::MAX), Ok(1));

    assert_eq!(a.transactions.len(), 1);
    assert_eq!(a.transactions[0].quantity, u128::MAX);
    assert_eq!(a.buy_orders.len(), 0);
    assert_eq!(a.sell_orders.len(), 0);
}

#[test]
fn resolve_leaves_an_uncrossed_book_alone() {
    let mut a = OrderBook::build();
    let _ = a.sell(false, 100, 5);
    let _ = a.buy(true, 90, 1);
    let snapshot = a.clone();

    a.resolve();

    assert_eq!(a, snapshot);
}

#[test]
fn trade_executes_at_the_resting_ask_price() {
    let mut a = OrderBook::build();
    assert_eq!(a.sell(false, 100, 5), Ok(0));
    assert_eq!(a.buy(true, 105, 5), Ok(1));

    assert_eq!(a.transactions.len(), 1);
    assert_eq!(a.transactions[0].price, 100);
}

#[test]
fn cancel_reports_remaining_quantity() {
    let mut a = OrderBook::build();
    assert_eq!(a.sell(false, 100, 10), Ok(0));
    assert_eq!(a.buy(true, 100, 4), Ok(1));

    let canceled = a.cancel(0).unwrap();
    assert_eq!(canceled.quantity, 6);
    assert_eq!(a.sell_orders.len(), 0);
}

#[test]
fn cancel_removes_an_order_behind_the_head() {
    let mut a = OrderBook::build();
    assert_eq!(a.sell(false, 100, 5), Ok(0));
    assert_eq!(a.sell(false, 100, 3), Ok(1));
    assert_eq!(a.sell(false, 100, 7), Ok(2));

    let canceled = a.cancel(1).unwrap();
    assert_eq!(canceled.id, 1);
    assert_eq!(canceled.quantity, 3);
    assert_eq!(a.sell_orders.len(), 1);
    assert_eq!(a.sell_orders[0].orders.len(), 2);
    assert_eq!(a.sell_orders[0].orders[0].id, 0);
    assert_eq!(a.sell_orders[0].orders[1].id, 2);
}

#[test]
fn lookups_find_resting_orders_on_the_right_side() {
    let mut a = OrderBook::build();
    assert_eq!(a.buy(true, 90, 4), Ok(0));
    assert_eq!(a.sell(false, 110, 6), Ok(1));

    let bid = a.get_buy_order(0).unwrap();
    assert_eq!(bid.id, 0);
    assert_eq!(bid.price, 90);
    assert_eq!(bid.quantity, 4);
    assert!(bid.buy_order);

    let ask = a.get_sell_order(1).unwrap();
    assert_eq!(ask.id, 1);
    assert_eq!(ask.price, 110);
    assert_eq!(ask.quantity, 6);
    assert!(!ask.buy_order);

    assert!(a.get_buy_order(1).is_err());
    assert!(a.get_sell_order(0).is_err());
    assert_eq!(a.get_buy_order_quantity(0), Ok(4));
    assert_eq!(a.get_sell_order_quantity(1), Ok(6));
    assert_eq!(a.get_buy_order_quantity(7), Err(OrderBookError::NotFound));
    assert_eq!(a.get_sell_order_quantity(7), Err(OrderBookError::NotFound));

    let bid_again = a.get_mut_buy_order(0).unwrap();
    assert_eq!(bid_again.id, 0);
    assert_eq!(bid_again.quantity, 4);
    let ask_again = a.get_mut_sell_order(1).unwrap();
    assert_eq!(ask_again.id, 1);
    assert_eq!(ask_again.quantity, 6);
    assert_eq!(a.get_mut_buy_order(1), Err(OrderBookError::NotFound));
    assert_eq!(a.get_mut_sell_order(0), Err(OrderBookError::NotFound));
}

#[test]
fn filled_order_id_is_no_longer_found() {
    let mut a = OrderBook::build();
    assert_eq!(a.sell(false, 100, 5), Ok(0));
    assert_eq!(a.buy(true, 100, 5), Ok(1));

    // Both ids were immediately fully filled; lookups and cancel say NotFound.
    assert_eq!(a.get_sell_order_quantity(0), Err(OrderBookError::NotFound));
    assert_eq!(a.get_buy_order_quantity(1), Err(OrderBookError::NotFound));
    assert_eq!(a.cancel(0), Err(OrderBookError::NotFound));
    assert_eq!(a.cancel(1), Err(OrderBookError::NotFound));
    // The counter still counts them.
    assert_eq!(*a.get_tot_orders(), 2);
}

#[test]
fn counter_advances_even_for_filled_orders() {
    let mut a = OrderBook::build();
    assert_eq!(*a.get_tot_orders(), 0);
    let _ = a.sell(false, 100, 1);
    let _ = a.buy(true, 100, 1);
    assert_eq!(*a.get_tot_orders(), 2);
    let _ = a.buy(true, 100, 0);
    assert_eq!(*a.get_tot_orders(), 2);
    let _ = a.buy(true, 100, 3);
    assert_eq!(*a.get_tot_orders(), 3);
}

#[test]
fn placeholder_constructors_and_noop_queries() {
    let o = Order::new();
    assert!(o.buy_order);
    assert_eq!(o.price, 0);
    assert_eq!(o.quantity, 0);
    assert_eq!(o.id, 0);

    let t = Transaction::new();
    assert_eq!(t.price, 0);
    assert_eq!(t.quantity, 0);

    let mut a = OrderBook::build();
    let _ = a.buy(true, 10, 2);
    let snapshot = a.clone();
    a.market_buy(5);
    a.market_sell();
    a.display_depth_chart();
    assert_eq!(a, snapshot);
}

#[test]
fn api_shapes_round_trip_their_fields() {
    let req = CreateOrder { buy_order: true, price: 100, quantity: 7 };
    assert!(req.buy_order);
    assert_eq!(req.price, 100);
    assert_eq!(req.quantity, 7);

    let resp = CreateOrderResponse { status: "ok".to_string(), order_id: 3 };
    assert_eq!(resp.status, "ok");
    assert_eq!(resp.order_id, 3);
}
