use clob::OrderBook;

#[test]
fn test_build_order_book() {
    let a = OrderBook::build();
    let b = OrderBook {
        total_orders: 0,
        buy_orders: Vec::new(),
        sell_orders: Vec::new(),
        transactions: Vec::new(),
    };

    assert_eq!(a, b);
}

#[test]
fn test_buy() {
    let mut a = OrderBook::build();
    let _ = a.buy(true, 2, 1);

    assert_eq!(a.buy_orders.len(), 1);
    assert_eq!(a.total_orders, 1);
}

#[test]
fn test_sell() {
    let mut a = OrderBook::build();
    let _ = a.sell(false, 2, 1);

    assert_eq!(a.sell_orders.len(), 1);
    assert_eq!(a.total_orders, 1);
}

#[test]
fn test_cancel() {
    let mut a = OrderBook::build();
    let _ = a.buy(true, 2, 1);

    let _b = a.cancel(0);

    assert_eq!(a.buy_orders.len(), 0);
}

#[test]
fn test_order_matching_buy_aggressive() {
    let mut a = OrderBook::build();
    // Place a sell order first
    let _ = a.sell(false, 100, 10);
    // Place a buy order that should match
    let _ = a.buy(true, 100, 5);

    // Should have 1 transaction
    assert_eq!(a.transactions.len(), 1);
    // Sell order should still exist with remaining quantity
    assert_eq!(a.sell_orders.len(), 1);
    // Buy order should be fully filled and removed
    assert_eq!(a.buy_orders.len(), 0);
}

#[test]
fn test_order_matching_sell_aggressive() {
    let mut a = OrderBook::build();
    // Place a buy order first
    let _ = a.buy(true, 100, 10);
    // Place a sell order that should match
    let _ = a.sell(false, 100, 5);

    // Should have 1 transaction
    assert_eq!(a.transactions.len(), 1);
    // Buy order should still exist with remaining quantity
    assert_eq!(a.buy_orders.len(), 1);
    // Sell order should be fully filled and removed
    assert_eq!(a.sell_orders.len(), 0);
}

#[test]
fn test_exact_order_match() {
    let mut a = OrderBook::build();
    // Place a sell order
    let _ = a.sell(false, 100, 10);
    // Place a buy order with exact same quantity
    let _ = a.buy(true, 100, 10);

    // Should have 1 transaction
    assert_eq!(a.transactions.len(), 1);
    // Both orders should be fully filled and removed
    assert_eq!(a.buy_orders.len(), 0);
    assert_eq!(a.sell_orders.len(), 0);
}

#[test]
fn test_no_matching_orders() {
    let mut a = OrderBook::build();
    // Place a sell order at higher price
    let _ = a.sell(false, 100, 10);
    // Place a buy order at lower price (no match)
    let _ = a.buy(true, 90, 5);

    // Should have no transactions
    assert_eq!(a.transactions.len(), 0);
    // Both orders should remain
    assert_eq!(a.buy_orders.len(), 1);
    assert_eq!(a.sell_orders.len(), 1);
}

#[test]
fn test_resolve_function() {
    let mut a = OrderBook::build();
    // Place multiple orders that can match
    let _ = a.sell(false, 100, 10);
    let _ = a.sell(false, 95, 5);
    let _ = a.buy(true, 100, 8);
    let _ = a.buy(true, 98, 7);

    // Manually resolve all possible matches
    a.resolve();

    // Should have multiple transactions
    assert!(a.transactions.len() > 0);
    // Orders should be properly matched and quantities updated
    assert!(a.buy_orders.len() <= 2);
    assert!(a.sell_orders.len() <= 2);
}

#[test]
fn test_zero_quantity_rejection() {
    let mut a = OrderBook::build();
    // Try to place orders with zero quantity
    let _ = a.buy(true, 100, 0);
    let _ = a.sell(false, 100, 0);

    // Should have no orders
    assert_eq!(a.buy_orders.len(), 0);
    assert_eq!(a.sell_orders.len(), 0);
    assert_eq!(a.total_orders, 0);
}

#[test]
fn test_order_priority() {
    let mut a = OrderBook::build();
    // Place multiple sell orders at same price
    let _ = a.sell(false, 100, 5);
    let _ = a.sell(false, 100, 3);
    let _ = a.sell(false, 100, 7);

    // Place a buy order that should match the first one
    let _ = a.buy(true, 100, 4);

    // Should have 1 transaction
    assert_eq!(a.transactions.len(), 1);
    // First sell order should be partially filled
    assert_eq!(a.sell_orders.len(), 1);
    // Buy order should be fully filled and removed
    assert_eq!(a.buy_orders.len(), 0);
}

#[test]
fn test_transaction_details() {
    let mut a = OrderBook::build();
    let _ = a.sell(false, 100, 10);
    let _ = a.buy(true, 100, 5);

    // Check transaction details
    assert_eq!(a.transactions.len(), 1);
    let transaction = &a.transactions[0];
    assert_eq!(transaction.price, 100);
    assert_eq!(transaction.quantity, 5);
    assert!(transaction.time > 0);
}

#[test]
fn lib_test_build_order_book() {
    let a = OrderBook::build();
    let b = OrderBook {
        total_orders: 0,
        buy_orders: Vec::new(),
        sell_orders: Vec::new(),
        transactions: Vec::new(),
    };

    assert_eq!(a, b);
}

#[test]
fn lib_test_buy() {
    let mut a = OrderBook::build();
    let _ = a.buy(true, 2, 1);

    assert_eq!(a.buy_orders.len(), 1);
}

#[test]
fn lib_test_sell() {
    let mut a = OrderBook::build();
    let _ = a.sell(false, 2, 1);

    assert_eq!(a.sell_orders.len(), 1);
}

#[test]
fn lib_test_cancel() {
    let mut a = OrderBook::build();
    let _ = a.buy(true, 2, 1);

    let _b = a.cancel(0);

    assert_eq!(a.buy_orders.len(), 0);
}
