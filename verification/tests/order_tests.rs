use std::mem::size_of;
use titan::fixed::{Price, Quantity};
use titan::order::{Order, OrderId, OrderType, Side, SymbolId};

#[test]
fn test_order_size() {
    assert_eq!(size_of::<Order>(), 64);
}

#[test]
fn test_order_fill() {
    let mut order = Order::new(
        OrderId(1),
        SymbolId(1),
        Side::Buy,
        OrderType::Limit,
        Price::from_ticks(100),
        Quantity(100),
        0,
    );

    assert!(!order.is_filled());
    order.fill(Quantity(50));
    assert_eq!(order.remaining_qty.0, 50);
    assert!(!order.is_filled());

    order.fill(Quantity(50));
    assert!(order.is_filled());
    assert_eq!(order.filled_qty().0, 100);
}

#[test]
fn test_side_opposite() {
    assert_eq!(Side::Buy.opposite(), Side::Sell);
    assert_eq!(Side::Sell.opposite(), Side::Buy);
}

#[test]
fn order_new_sets_every_field() {
    let order = Order::new(
        OrderId(7),
        SymbolId(3),
        Side::Sell,
        OrderType::FOK,
        Price(1234),
        Quantity(55),
        99,
    );
    assert_eq!(order.order_id, OrderId(7));
    assert_eq!(order.symbol, SymbolId(3));
    assert_eq!(order.side, Side::Sell);
    assert_eq!(order.order_type, OrderType::FOK);
    assert_eq!(order.price, Price(1234));
    assert_eq!(order.original_qty, Quantity(55));
    assert_eq!(order.remaining_qty, Quantity(55));
    assert_eq!(order.timestamp, 99);
    assert_eq!(order.flags, 0);
    assert_eq!(order.padding, [0u8; 17]);
    assert_eq!(order.filled_qty(), Quantity(0));
    assert!(order.is_sell());
    assert!(!order.is_buy());
}

#[test]
fn default_order_is_an_empty_buy_limit() {
    let order = Order::default();
    assert_eq!(order.price, Price(0));
    assert_eq!(order.remaining_qty, Quantity(0));
    assert_eq!(order.original_qty, Quantity(0));
    assert_eq!(order.order_id, OrderId::invalid());
    assert_eq!(order.symbol, SymbolId::invalid());
    assert_eq!(order.side, Side::Buy);
    assert_eq!(order.order_type, OrderType::Limit);
    assert!(order.is_filled());
}

#[test]
fn side_and_type_predicates() {
    assert!(Side::Buy.is_buy());
    assert!(!Side::Buy.is_sell());
    assert!(Side::Sell.is_sell());
    assert!(!Side::Sell.is_buy());
    assert!(OrderType::Limit.should_rest());
    assert!(OrderType::PostOnly.should_rest());
    assert!(!OrderType::IOC.should_rest());
    assert!(!OrderType::FOK.should_rest());
}

#[test]
fn identifiers() {
    assert!(!OrderId::invalid().is_valid());
    assert!(!OrderId(0).is_valid());
    assert!(OrderId(1).is_valid());
    assert_eq!(OrderId::default(), OrderId(0));
    assert_eq!(SymbolId::invalid(), SymbolId(u32::MAX));
    assert_eq!(SymbolId::default(), SymbolId(0));
}
