use titan::fixed::{Price, Quantity};

#[test]
fn test_price_ticks() {
    let p = Price::from_ticks(100);
    assert_eq!(p.to_ticks(), 100);
    assert_eq!(p.as_raw(), 100 * Price::TICK_SIZE);
}

#[test]
fn test_quantity_ops() {
    let q1 = Quantity(100);
    let q2 = Quantity(50);

    assert_eq!((q1 + q2).0, 150);
    assert_eq!((q1 - q2).0, 50);
    assert_eq!(q1.min(q2), q2);
}

#[test]
fn test_saturating_ops() {
    let q = Quantity(10);
    assert_eq!(q.saturating_sub(Quantity(20)), Quantity::zero());
}

#[test]
fn ticks_round_trip_up_to_the_clamp() {
    let limit = u64::MAX / Price::TICK_SIZE;
    for n in [0u64, 1, 2, 99, 100, 12_345, limit - 1, limit] {
        assert_eq!(Price::from_ticks(n).to_ticks(), n);
    }
}

#[test]
fn from_ticks_clamps_above_the_limit() {
    let limit = u64::MAX / Price::TICK_SIZE;
    assert_eq!(Price::from_ticks(limit + 1), Price(u64::MAX));
    assert_eq!(Price::from_ticks(u64::MAX), Price::max_value());
    assert_eq!(Price::from_ticks(limit).as_raw(), limit * 100);
}

#[test]
fn price_arithmetic() {
    assert_eq!(Price(300) + Price(200), Price(500));
    assert_eq!(Price(300) - Price(200), Price(100));
    assert_eq!(Price(u64::MAX).saturating_add(Price(1)), Price(u64::MAX));
    assert_eq!(Price(5).saturating_add(Price(7)), Price(12));
    assert_eq!(Price(5).saturating_sub(Price(7)), Price::zero());
    assert_eq!(Price(7).saturating_sub(Price(5)), Price(2));
    assert!(Price::zero().is_zero());
    assert!(!Price(1).is_zero());
    assert_eq!(Price::from_raw(17).as_raw(), 17);
    assert_eq!(Price::default(), Price(0));
    assert!(Price(1) < Price(2));
}

#[test]
fn quantity_arithmetic() {
    assert_eq!(Quantity(6) * Quantity(7), Quantity(42));
    assert_eq!(Quantity(u64::MAX).saturating_add(Quantity(1)), Quantity::max_value());
    assert_eq!(Quantity(3).saturating_add(Quantity(4)), Quantity(7));
    assert_eq!(Quantity(10).checked_sub(Quantity(4)), Some(Quantity(6)));
    assert_eq!(Quantity(10).checked_sub(Quantity(10)), Some(Quantity(0)));
    assert_eq!(Quantity(10).checked_sub(Quantity(11)), None);
    assert_eq!(Quantity(3).min(Quantity(3)), Quantity(3));
    assert_eq!(Quantity(2).min(Quantity(3)), Quantity(2));
    assert!(Quantity::zero().is_zero());
    assert_eq!(Quantity::from_raw(9).as_raw(), 9);
    assert_eq!(Quantity::default(), Quantity(0));
}
