use titan::engine::{MatchingEngine, OrderResult};
use titan::fills::MAX_FILLS_PER_ORDER;
use titan::fixed::{Price, Quantity};
use titan::level::MAX_ORDERS_PER_LEVEL;
use titan::model::RejectReason;
use titan::order::{Order, OrderId, OrderType, Side, SymbolId};
use titan::pool::OrderHandle;

fn create_engine() -> MatchingEngine {
    MatchingEngine::new(SymbolId(1), 10, Price::zero()) // 1024 orders
}

fn order(id: u64, side: Side, kind: OrderType, ticks: u64, qty: u64) -> Order {
    Order::new(OrderId(id), SymbolId(1), side, kind, Price::from_ticks(ticks), Quantity(qty), 0)
}

fn resting_handle(result: OrderResult) -> OrderHandle {
    match result {
        OrderResult::Resting { handle } => handle,
        other => panic!("Expected Resting, got {:?}", other),
    }
}

#[test]
fn test_simple_match() {
    let mut engine = create_engine();

    // Place sell order
    let sell = Order::new(
        OrderId(1), SymbolId(1), Side::Sell, OrderType::Limit,
        Price::from_ticks(100), Quantity(100), 0,
    );
    let result = engine.submit_order(sell, 1);
    assert!(matches!(result, OrderResult::Resting { .. }));

    // Place matching buy order
    let buy = Order::new(
        OrderId(2), SymbolId(1), Side::Buy, OrderType::Limit,
        Price::from_ticks(100), Quantity(100), 2,
    );
    let result = engine.submit_order(buy, 2);

    match result {
        OrderResult::Filled { fills } => {
            assert_eq!(fills.len(), 1);
            assert_eq!(fills[0].quantity.0, 100);
            assert_eq!(fills[0].price, Price::from_ticks(100));
            assert_eq!(fills[0].maker_order_id.0, 1);
            assert_eq!(fills[0].taker_order_id.0, 2);
        }
        _ => panic!("Expected Filled, got {:?}", result),
    }
}

#[test]
fn test_partial_fill() {
    let mut engine = create_engine();

    // Place sell order for 50
    let sell = Order::new(
        OrderId(1), SymbolId(1), Side::Sell, OrderType::Limit,
        Price::from_ticks(100), Quantity(50), 0,
    );
    engine.submit_order(sell, 1);

    // Place buy order for 100
    let buy = Order::new(
        OrderId(2), SymbolId(1), Side::Buy, OrderType::Limit,
        Price::from_ticks(100), Quantity(100), 2,
    );
    let result = engine.submit_order(buy, 2);

    match result {
        OrderResult::PartialFill { fills, resting_qty, .. } => {
            assert_eq!(fills.len(), 1);
            assert_eq!(fills[0].quantity.0, 50);
            assert_eq!(resting_qty.0, 50);
        }
        _ => panic!("Expected PartialFill, got {:?}", result),
    }
}

#[test]
fn test_price_time_priority() {
    let mut engine = create_engine();

    // Place two sell orders at same price
    let sell1 = Order::new(
        OrderId(1), SymbolId(1), Side::Sell, OrderType::Limit,
        Price::from_ticks(100), Quantity(50), 0,
    );
    engine.submit_order(sell1, 1);

    let sell2 = Order::new(
        OrderId(2), SymbolId(1), Side::Sell, OrderType::Limit,
        Price::from_ticks(100), Quantity(50), 0,
    );
    engine.submit_order(sell2, 2);

    // Buy should match with first sell (time priority)
    let buy = Order::new(
        OrderId(3), SymbolId(1), Side::Buy, OrderType::Limit,
        Price::from_ticks(100), Quantity(50), 3,
    );
    let result = engine.submit_order(buy, 3);

    match result {
        OrderResult::Filled { fills } => {
            assert_eq!(fills[0].maker_order_id.0, 1); // First order matched
        }
        _ => panic!("Expected Filled"),
    }
}

#[test]
fn test_ioc_no_match() {
    let mut engine = create_engine();

    // IOC order with no matching liquidity
    let order = Order::new(
        OrderId(1), SymbolId(1), Side::Buy, OrderType::IOC,
        Price::from_ticks(100), Quantity(100), 0,
    );
    let result = engine.submit_order(order, 1);

    match result {
        OrderResult::Cancelled { filled_qty, .. } => {
            assert_eq!(filled_qty.0, 0);
        }
        _ => panic!("Expected Cancelled"),
    }
}

#[test]
fn test_post_only_reject() {
    let mut engine = create_engine();

    // Place sell at 100
    let sell = Order::new(
        OrderId(1), SymbolId(1), Side::Sell, OrderType::Limit,
        Price::from_ticks(100), Quantity(100), 0,
    );
    engine.submit_order(sell, 1);

    // Post-only buy at 100 should be rejected (would match)
    let buy = Order::new(
        OrderId(2), SymbolId(1), Side::Buy, OrderType::PostOnly,
        Price::from_ticks(100), Quantity(100), 2,
    );
    let result = engine.submit_order(buy, 2);

    assert!(matches!(result, OrderResult::Rejected { reason: RejectReason::PostOnlyWouldMatch }));
}

#[test]
fn clean_cross_leaves_book_and_pool_empty() {
    let mut engine = create_engine();
    engine.submit_order(order(1, Side::Sell, OrderType::Limit, 100, 100), 1);
    assert_eq!(engine.pool_stats(), (1, 1024));
    let result = engine.submit_order(order(2, Side::Buy, OrderType::Limit, 100, 100), 7);
    match result {
        OrderResult::Filled { fills } => {
            assert_eq!(fills.len(), 1);
            let fill = fills[0];
            assert_eq!(fill.maker_order_id, OrderId(1));
            assert_eq!(fill.taker_order_id, OrderId(2));
            assert_eq!(fill.price, Price::from_ticks(100));
            assert_eq!(fill.quantity, Quantity(100));
            assert_eq!(fill.maker_side, Side::Sell);
            assert_eq!(fill.symbol, SymbolId(1));
            assert_eq!(fill.timestamp, 7);
        }
        other => panic!("Expected Filled, got {:?}", other),
    }
    assert!(engine.book.bids.is_empty());
    assert!(engine.book.asks.is_empty());
    assert!(engine.book.is_empty());
    assert_eq!(engine.book.asks.order_count(), 0);
    assert_eq!(engine.book.asks.total_qty(), Quantity(0));
    assert_eq!(engine.pool_stats(), (0, 1024));
    assert_eq!(engine.pool.active(), 0);
}

#[test]
fn partial_maker_rests_the_remainder_on_the_bid_side() {
    let mut engine = create_engine();
    engine.submit_order(order(1, Side::Sell, OrderType::Limit, 100, 50), 1);
    let result = engine.submit_order(order(2, Side::Buy, OrderType::Limit, 100, 100), 2);
    let handle = match result {
        OrderResult::PartialFill { fills, resting_qty, handle } => {
            assert_eq!(fills.len(), 1);
            assert_eq!(fills[0].quantity, Quantity(50));
            assert_eq!(resting_qty, Quantity(50));
            handle
        }
        other => panic!("Expected PartialFill, got {:?}", other),
    };
    assert!(engine.book.asks.is_empty());
    assert_eq!(engine.book.best_bid(), Some(Price::from_ticks(100)));
    assert_eq!(engine.book.bids.total_qty(), Quantity(50));
    assert_eq!(engine.book.bids.order_count(), 1);
    let rested = engine.get_order(handle).unwrap();
    assert_eq!(rested.order_id, OrderId(2));
    assert_eq!(rested.remaining_qty, Quantity(50));
    assert_eq!(rested.original_qty, Quantity(100));
    assert_eq!(rested.timestamp, 2);
    assert_eq!(engine.pool_stats().0, 1);
}

#[test]
fn ioc_without_liquidity_is_cancelled_with_no_fills() {
    let mut engine = create_engine();
    match engine.submit_order(order(1, Side::Buy, OrderType::IOC, 100, 100), 1) {
        OrderResult::Cancelled { filled_qty, fills } => {
            assert_eq!(filled_qty, Quantity(0));
            assert!(fills.is_empty());
        }
        other => panic!("Expected Cancelled, got {:?}", other),
    }
    assert!(engine.book.is_empty());
    assert_eq!(engine.pool_stats().0, 0);
}

#[test]
fn post_only_rejection_leaves_the_book_unchanged() {
    let mut engine = create_engine();
    let handle = resting_handle(engine.submit_order(order(1, Side::Sell, OrderType::Limit, 100, 100), 1));
    let result = engine.submit_order(order(2, Side::Buy, OrderType::PostOnly, 100, 100), 2);
    assert!(matches!(result, OrderResult::Rejected { reason: RejectReason::PostOnlyWouldMatch }));
    assert!(engine.book.bids.is_empty());
    assert_eq!(engine.book.best_ask(), Some(Price::from_ticks(100)));
    assert_eq!(engine.book.asks.order_count(), 1);
    assert_eq!(engine.book.asks.total_qty(), Quantity(100));
    assert_eq!(engine.get_order(handle).unwrap().remaining_qty, Quantity(100));
    assert_eq!(engine.pool_stats().0, 1);
    // Below the best ask it does not cross and rests.
    let result = engine.submit_order(order(3, Side::Buy, OrderType::PostOnly, 99, 100), 3);
    assert!(matches!(result, OrderResult::Resting { .. }));
}

#[test]
fn validation_rejects_before_anything_changes() {
    let mut engine = create_engine();
    engine.submit_order(order(1, Side::Sell, OrderType::Limit, 100, 100), 1);
    let zero_qty = engine.submit_order(order(2, Side::Buy, OrderType::Limit, 100, 0), 2);
    assert!(matches!(zero_qty, OrderResult::Rejected { reason: RejectReason::InvalidQuantity }));
    let zero_price = engine.submit_order(order(3, Side::Buy, OrderType::Limit, 0, 10), 3);
    assert!(matches!(zero_price, OrderResult::Rejected { reason: RejectReason::InvalidPrice }));
    let zero_price_fok = engine.submit_order(order(4, Side::Buy, OrderType::FOK, 0, 10), 4);
    assert!(matches!(zero_price_fok, OrderResult::Rejected { reason: RejectReason::InvalidPrice }));
    let zero_both = engine.submit_order(order(5, Side::Buy, OrderType::IOC, 0, 0), 5);
    assert!(matches!(zero_both, OrderResult::Rejected { reason: RejectReason::InvalidQuantity }));
    assert_eq!(engine.book.asks.total_qty(), Quantity(100));
    assert_eq!(engine.pool_stats().0, 1);
}

#[test]
fn ioc_may_carry_a_zero_price() {
    let mut engine = create_engine();
    engine.submit_order(order(1, Side::Buy, OrderType::Limit, 100, 40), 1);
    // A sell at price zero crosses every bid.
    match engine.submit_order(order(2, Side::Sell, OrderType::IOC, 0, 100), 2) {
        OrderResult::Cancelled { filled_qty, fills } => {
            assert_eq!(filled_qty, Quantity(40));
            assert_eq!(fills.len(), 1);
            assert_eq!(fills[0].price, Price::from_ticks(100));
        }
        other => panic!("Expected Cancelled, got {:?}", other),
    }
    // A buy at price zero crosses nothing.
    engine.submit_order(order(3, Side::Sell, OrderType::Limit, 100, 40), 3);
    match engine.submit_order(order(4, Side::Buy, OrderType::IOC, 0, 100), 4) {
        OrderResult::Cancelled { filled_qty, fills } => {
            assert_eq!(filled_qty, Quantity(0));
            assert!(fills.is_empty());
        }
        other => panic!("Expected Cancelled, got {:?}", other),
    }
}

#[test]
fn fills_walk_levels_in_price_then_time_order() {
    let mut engine = create_engine();
    engine.submit_order(order(1, Side::Sell, OrderType::Limit, 102, 10), 1);
    engine.submit_order(order(2, Side::Sell, OrderType::Limit, 100, 10), 2);
    engine.submit_order(order(3, Side::Sell, OrderType::Limit, 101, 10), 3);
    engine.submit_order(order(4, Side::Sell, OrderType::Limit, 100, 10), 4);
    engine.submit_order(order(5, Side::Sell, OrderType::Limit, 103, 10), 5);
    match engine.submit_order(order(6, Side::Buy, OrderType::Limit, 102, 35), 6) {
        OrderResult::Filled { fills } => {
            let seen: Vec<(u64, u64, u64)> =
                fills.iter().map(|f| (f.maker_order_id.0, f.price.to_ticks(), f.quantity.0)).collect();
            assert_eq!(seen, vec![(2, 100, 10), (4, 100, 10), (3, 101, 10), (1, 102, 5)]);
        }
        other => panic!("Expected Filled, got {:?}", other),
    }
    assert_eq!(engine.book.best_ask(), Some(Price::from_ticks(102)));
    assert_eq!(engine.book.asks.order_count(), 2);
    assert_eq!(engine.book.asks.total_qty(), Quantity(15));
    assert_eq!(engine.pool_stats().0, 2);
}

#[test]
fn sell_taker_walks_bids_downwards() {
    let mut engine = create_engine();
    engine.submit_order(order(1, Side::Buy, OrderType::Limit, 98, 10), 1);
    engine.submit_order(order(2, Side::Buy, OrderType::Limit, 100, 10), 2);
    engine.submit_order(order(3, Side::Buy, OrderType::Limit, 99, 10), 3);
    match engine.submit_order(order(4, Side::Sell, OrderType::Limit, 99, 30), 4) {
        OrderResult::PartialFill { fills, resting_qty, .. } => {
            let seen: Vec<(u64, u64)> = fills.iter().map(|f| (f.maker_order_id.0, f.price.to_ticks())).collect();
            assert_eq!(seen, vec![(2, 100), (3, 99)]);
            assert_eq!(resting_qty, Quantity(10));
            assert_eq!(fills[0].maker_side, Side::Buy);
        }
        other => panic!("Expected PartialFill, got {:?}", other),
    }
    assert_eq!(engine.book.best_bid(), Some(Price::from_ticks(98)));
    assert_eq!(engine.book.best_ask(), Some(Price::from_ticks(99)));
}

#[test]
fn exhausting_the_only_level_empties_the_side() {
    let mut engine = create_engine();
    engine.submit_order(order(1, Side::Sell, OrderType::Limit, 100, 10), 1);
    engine.submit_order(order(2, Side::Sell, OrderType::Limit, 100, 10), 2);
    let result = engine.submit_order(order(3, Side::Buy, OrderType::IOC, 100, 20), 3);
    assert!(matches!(result, OrderResult::Filled { .. }));
    assert!(engine.book.asks.is_empty());
    assert_eq!(engine.book.best_ask(), None);
    assert!(engine.book.asks.best_level().is_none());
    assert_eq!(engine.book.asks.order_count(), 0);
}

#[test]
fn exhausting_the_best_level_moves_to_the_next() {
    let mut engine = create_engine();
    engine.submit_order(order(1, Side::Sell, OrderType::Limit, 100, 10), 1);
    engine.submit_order(order(2, Side::Sell, OrderType::Limit, 105, 10), 2);
    let result = engine.submit_order(order(3, Side::Buy, OrderType::IOC, 100, 10), 3);
    assert!(matches!(result, OrderResult::Filled { .. }));
    assert_eq!(engine.book.best_ask(), Some(Price::from_ticks(105)));
    assert_eq!(engine.book.asks.order_count(), 1);
}

#[test]
fn fok_is_rejected_unless_the_best_level_covers_it() {
    let mut engine = create_engine();
    engine.submit_order(order(1, Side::Sell, OrderType::Limit, 100, 30), 1);
    engine.submit_order(order(2, Side::Sell, OrderType::Limit, 101, 30), 2);
    // No crossing price.
    let r = engine.submit_order(order(3, Side::Buy, OrderType::FOK, 99, 10), 3);
    assert!(matches!(r, OrderResult::Rejected { reason: RejectReason::InsufficientLiquidity }));
    // More than the best level holds, although deeper levels would do.
    let r = engine.submit_order(order(4, Side::Buy, OrderType::FOK, 101, 40), 4);
    assert!(matches!(r, OrderResult::Rejected { reason: RejectReason::InsufficientLiquidity }));
    assert_eq!(engine.book.asks.total_qty(), Quantity(60));
    // Exactly the best level.
    match engine.submit_order(order(5, Side::Buy, OrderType::FOK, 100, 30), 5) {
        OrderResult::Filled { fills } => {
            assert_eq!(fills.len(), 1);
            assert_eq!(fills[0].quantity, Quantity(30));
        }
        other => panic!("Expected Filled, got {:?}", other),
    }
    assert_eq!(engine.book.best_ask(), Some(Price::from_ticks(101)));
    // An empty book.
    let mut empty = create_engine();
    let r = empty.submit_order(order(6, Side::Sell, OrderType::FOK, 100, 1), 6);
    assert!(matches!(r, OrderResult::Rejected { reason: RejectReason::InsufficientLiquidity }));
}

#[test]
fn ioc_takes_what_crosses_and_drops_the_rest() {
    let mut engine = create_engine();
    engine.submit_order(order(1, Side::Sell, OrderType::Limit, 100, 30), 1);
    engine.submit_order(order(2, Side::Sell, OrderType::Limit, 102, 30), 2);
    match engine.submit_order(order(3, Side::Buy, OrderType::IOC, 101, 50), 3) {
        OrderResult::Cancelled { filled_qty, fills } => {
            assert_eq!(filled_qty, Quantity(30));
            assert_eq!(fills.len(), 1);
        }
        other => panic!("Expected Cancelled, got {:?}", other),
    }
    assert!(engine.book.bids.is_empty());
    assert_eq!(engine.book.best_ask(), Some(Price::from_ticks(102)));
}

#[test]
fn cancel_returns_the_book_to_its_prior_state() {
    let mut engine = create_engine();
    let handle = resting_handle(engine.submit_order(order(1, Side::Buy, OrderType::Limit, 100, 25), 9));
    let cancelled = engine.cancel_order(handle).unwrap();
    assert_eq!(cancelled.order_id, OrderId(1));
    assert_eq!(cancelled.remaining_qty, Quantity(25));
    assert_eq!(cancelled.timestamp, 9);
    assert!(engine.book.is_empty());
    assert_eq!(engine.book.bids.order_count(), 0);
    assert_eq!(engine.book.bids.total_qty(), Quantity(0));
    assert_eq!(engine.pool_stats(), (0, 1024));
    assert!(engine.get_order(handle).is_none());
    // The same slot is handed out again.
    let again = resting_handle(engine.submit_order(order(2, Side::Buy, OrderType::Limit, 100, 25), 10));
    assert_eq!(again, handle);
}

#[test]
fn cancel_in_a_populated_book_restores_it() {
    let mut engine = create_engine();
    engine.submit_order(order(1, Side::Buy, OrderType::Limit, 100, 10), 1);
    engine.submit_order(order(2, Side::Buy, OrderType::Limit, 98, 20), 2);
    engine.submit_order(order(3, Side::Sell, OrderType::Limit, 105, 30), 3);
    let stats = engine.pool_stats();
    for ticks in [97u64, 98, 99, 100, 101] {
        let handle = resting_handle(engine.submit_order(order(9, Side::Buy, OrderType::Limit, ticks, 5), 4));
        assert!(engine.cancel_order(handle).is_some());
        assert_eq!(engine.book.best_bid(), Some(Price::from_ticks(100)));
        assert_eq!(engine.book.bids.order_count(), 2);
        assert_eq!(engine.book.bids.total_qty(), Quantity(30));
        assert_eq!(engine.book.best_ask(), Some(Price::from_ticks(105)));
        assert_eq!(engine.pool_stats(), stats);
    }
}

#[test]
fn cancel_of_a_dead_handle_does_nothing() {
    let mut engine = create_engine();
    assert!(engine.cancel_order(OrderHandle::invalid()).is_none());
    assert!(engine.cancel_order(OrderHandle(0)).is_none());
    assert!(engine.cancel_order(OrderHandle(5000)).is_none());
    let handle = resting_handle(engine.submit_order(order(1, Side::Sell, OrderType::Limit, 100, 10), 1));
    assert!(engine.cancel_order(handle).is_some());
    assert!(engine.cancel_order(handle).is_none());
    // A maker that was filled is gone too.
    let handle = resting_handle(engine.submit_order(order(2, Side::Sell, OrderType::Limit, 100, 10), 2));
    engine.submit_order(order(3, Side::Buy, OrderType::IOC, 100, 10), 3);
    assert!(engine.cancel_order(handle).is_none());
    assert_eq!(engine.pool_stats().0, 0);
}

#[test]
fn a_cancelled_order_is_not_matched() {
    let mut engine = create_engine();
    let first = resting_handle(engine.submit_order(order(1, Side::Sell, OrderType::Limit, 100, 10), 1));
    engine.submit_order(order(2, Side::Sell, OrderType::Limit, 100, 10), 2);
    engine.submit_order(order(3, Side::Sell, OrderType::Limit, 100, 10), 3);
    engine.cancel_order(first);
    match engine.submit_order(order(4, Side::Buy, OrderType::Limit, 100, 25), 4) {
        OrderResult::PartialFill { fills, resting_qty, .. } => {
            let makers: Vec<u64> = fills.iter().map(|f| f.maker_order_id.0).collect();
            assert_eq!(makers, vec![2, 3]);
            assert_eq!(resting_qty, Quantity(5));
        }
        other => panic!("Expected PartialFill, got {:?}", other),
    }
}

#[test]
fn cancel_after_a_partial_fill_returns_what_is_left() {
    let mut engine = create_engine();
    let handle = resting_handle(engine.submit_order(order(1, Side::Sell, OrderType::Limit, 100, 50), 1));
    engine.submit_order(order(2, Side::Buy, OrderType::IOC, 100, 20), 2);
    assert_eq!(engine.book.asks.total_qty(), Quantity(30));
    let cancelled = engine.cancel_order(handle).unwrap();
    assert_eq!(cancelled.remaining_qty, Quantity(30));
    assert_eq!(cancelled.original_qty, Quantity(50));
    assert!(engine.book.asks.is_empty());
    assert_eq!(engine.book.asks.total_qty(), Quantity(0));
}

#[test]
fn pool_exhaustion_is_reported_and_changes_nothing() {
    let mut engine = MatchingEngine::new(SymbolId(1), 1, Price::zero()); // 2 orders
    engine.submit_order(order(1, Side::Buy, OrderType::Limit, 100, 10), 1);
    engine.submit_order(order(2, Side::Buy, OrderType::Limit, 99, 10), 2);
    assert_eq!(engine.pool_stats(), (2, 2));
    let result = engine.submit_order(order(3, Side::Buy, OrderType::Limit, 98, 10), 3);
    assert!(matches!(result, OrderResult::Rejected { reason: RejectReason::PoolExhausted }));
    assert_eq!(engine.pool_stats(), (2, 2));
    assert_eq!(engine.book.bids.order_count(), 2);
    let result = engine.submit_order(order(4, Side::Sell, OrderType::PostOnly, 101, 10), 4);
    assert!(matches!(result, OrderResult::Rejected { reason: RejectReason::PoolExhausted }));
    // A taker that frees a slot by filling a maker can rest.
    let result = engine.submit_order(order(5, Side::Sell, OrderType::Limit, 100, 15), 5);
    assert!(matches!(result, OrderResult::PartialFill { .. }));
    assert_eq!(engine.pool_stats(), (2, 2));
    // Cancelling frees a slot.
    assert!(engine.cancel_order(OrderHandle(1)).is_some());
    let result = engine.submit_order(order(6, Side::Buy, OrderType::Limit, 98, 10), 6);
    assert!(matches!(result, OrderResult::Resting { .. }));
}

#[test]
fn a_full_level_rejects_with_book_full() {
    let mut engine = MatchingEngine::new(SymbolId(1), 11, Price::zero());
    for i in 0..MAX_ORDERS_PER_LEVEL as u64 {
        let r = engine.submit_order(order(i + 1, Side::Buy, OrderType::Limit, 100, 1), i);
        assert!(matches!(r, OrderResult::Resting { .. }));
    }
    let stats = engine.pool_stats();
    assert_eq!(stats.0, MAX_ORDERS_PER_LEVEL);
    let r = engine.submit_order(order(5000, Side::Buy, OrderType::Limit, 100, 1), 5000);
    assert!(matches!(r, OrderResult::Rejected { reason: RejectReason::BookFull }));
    assert_eq!(engine.pool_stats(), stats);
    assert_eq!(engine.book.bids.order_count(), MAX_ORDERS_PER_LEVEL as u64);
    let r = engine.submit_order(order(5001, Side::Buy, OrderType::Limit, 101, 1), 5001);
    assert!(matches!(r, OrderResult::Resting { .. }));
}

#[test]
fn a_price_outside_the_book_cannot_rest() {
    let mut engine = MatchingEngine::new(SymbolId(1), 4, Price::from_ticks(1000));
    let r = engine.submit_order(order(1, Side::Buy, OrderType::Limit, 999, 10), 1);
    assert!(matches!(r, OrderResult::Rejected { reason: RejectReason::InvalidPrice }));
    let r = engine.submit_order(order(2, Side::Sell, OrderType::Limit, 1000 + 65536, 10), 2);
    assert!(matches!(r, OrderResult::Rejected { reason: RejectReason::InvalidPrice }));
    assert_eq!(engine.pool_stats().0, 0);
    assert!(engine.book.is_empty());
    let r = engine.submit_order(order(3, Side::Sell, OrderType::Limit, 1000 + 65535, 10), 3);
    assert!(matches!(r, OrderResult::Resting { .. }));
}

#[test]
fn more_fills_than_the_buffer_holds_are_executed_but_not_recorded() {
    let mut engine = create_engine();
    let makers = MAX_FILLS_PER_ORDER as u64 + 6;
    for i in 0..makers {
        engine.submit_order(order(i + 1, Side::Sell, OrderType::Limit, 100 + i % 2, 1), i);
    }
    assert_eq!(engine.pool_stats().0, makers as usize);
    match engine.submit_order(order(1000, Side::Buy, OrderType::Limit, 101, makers + 5), 1000) {
        OrderResult::PartialFill { fills, resting_qty, .. } => {
            assert_eq!(fills.len(), MAX_FILLS_PER_ORDER);
            assert!(fills.is_full());
            assert_eq!(fills[0].maker_order_id, OrderId(1));
            assert_eq!(fills[1].maker_order_id, OrderId(3));
            assert_eq!(resting_qty, Quantity(5));
        }
        other => panic!("Expected PartialFill, got {:?}", other),
    }
    assert!(engine.book.asks.is_empty());
    assert_eq!(engine.book.asks.order_count(), 0);
    assert_eq!(engine.book.asks.total_qty(), Quantity(0));
    assert_eq!(engine.book.bids.total_qty(), Quantity(5));
    assert_eq!(engine.pool_stats().0, 1);
}

#[test]
fn fill_quantities_add_up() {
    let mut engine = create_engine();
    let mut submitted_sell = 0u64;
    for (i, qty) in [7u64, 11, 13, 17, 19].iter().enumerate() {
        engine.submit_order(order(i as u64 + 1, Side::Sell, OrderType::Limit, 100 + i as u64, *qty), 0);
        submitted_sell += qty;
    }
    let mut filled = 0u64;
    let mut cancelled = 0u64;
    let mut submitted_buy = 0u64;
    for (i, (kind, ticks, qty)) in
        [(OrderType::IOC, 100u64, 10u64), (OrderType::Limit, 101, 12), (OrderType::IOC, 103, 40)].iter().enumerate()
    {
        submitted_buy += qty;
        match engine.submit_order(order(10 + i as u64, Side::Buy, *kind, *ticks, *qty), 1) {
            OrderResult::Filled { fills } => filled += fills.iter().map(|f| f.quantity.0).sum::<u64>(),
            OrderResult::PartialFill { fills, .. } => filled += fills.iter().map(|f| f.quantity.0).sum::<u64>(),
            OrderResult::Cancelled { filled_qty, fills } => {
                let sum = fills.iter().map(|f| f.quantity.0).sum::<u64>();
                assert_eq!(sum, filled_qty.0);
                filled += sum;
                cancelled += qty - filled_qty.0;
            }
            other => panic!("unexpected {:?}", other),
        }
    }
    let resting_sell = engine.book.asks.total_qty().0;
    let resting_buy = engine.book.bids.total_qty().0;
    assert_eq!(filled, submitted_sell - resting_sell);
    assert_eq!(filled, submitted_buy - resting_buy - cancelled);
    assert_eq!(filled, 48);
}

#[test]
fn counters_follow_the_levels() {
    let mut engine = create_engine();
    let mut handles = Vec::new();
    for i in 0..20u64 {
        handles.push(resting_handle(
            engine.submit_order(order(i + 1, Side::Buy, OrderType::Limit, 90 + i % 5, 10 + i), i),
        ));
    }
    assert_eq!(engine.book.bids.order_count(), 20);
    assert_eq!(engine.book.bids.total_qty(), Quantity((0..20u64).map(|i| 10 + i).sum()));
    assert_eq!(engine.book.best_bid(), Some(Price::from_ticks(94)));
    for (i, handle) in handles.iter().enumerate() {
        if i % 5 == 4 {
            engine.cancel_order(*handle);
        }
    }
    assert_eq!(engine.book.bids.order_count(), 16);
    assert_eq!(engine.book.best_bid(), Some(Price::from_ticks(93)));
    let distinct: std::collections::HashSet<u32> = handles.iter().map(|h| h.0).collect();
    assert_eq!(distinct.len(), 20);
    assert_eq!(engine.pool_stats().0, 16);
    assert_eq!(engine.pool.active() + engine.pool.available(), engine.pool.capacity());
}

#[test]
fn get_order_sees_live_orders_only() {
    let mut engine = create_engine();
    assert!(engine.get_order(OrderHandle(0)).is_none());
    assert!(engine.get_order(OrderHandle::invalid()).is_none());
    let handle = resting_handle(engine.submit_order(order(1, Side::Buy, OrderType::Limit, 100, 10), 5));
    assert_eq!(engine.get_order(handle).unwrap().order_id, OrderId(1));
    assert_eq!(engine.symbol, SymbolId(1));
}

#[test]
fn a_remainder_that_cannot_rest_is_rejected_after_its_fills() {
    let mut engine = MatchingEngine::new(SymbolId(1), 4, Price::zero());
    engine.submit_order(order(1, Side::Sell, OrderType::Limit, 100, 5), 1);
    // The buy price has no level in the book, but it crosses the ask.
    let r = engine.submit_order(order(2, Side::Buy, OrderType::Limit, 70_000, 8), 2);
    assert!(matches!(r, OrderResult::Rejected { reason: RejectReason::InvalidPrice }));
    assert!(engine.book.asks.is_empty());
    assert!(engine.book.bids.is_empty());
    assert_eq!(engine.pool_stats().0, 0);
    // With enough on offer the same order is filled.
    engine.submit_order(order(3, Side::Sell, OrderType::Limit, 100, 8), 3);
    let r = engine.submit_order(order(4, Side::Buy, OrderType::Limit, 70_000, 8), 4);
    assert!(matches!(r, OrderResult::Filled { .. }));
}
