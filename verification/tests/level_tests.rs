use titan::fixed::Quantity;
use titan::level::{PriceLevel, MAX_ORDERS_PER_LEVEL};
use titan::pool::OrderHandle;

#[test]
fn test_level_push_pop() {
    let mut level = PriceLevel::new();
    assert!(level.is_empty());

    // Push some orders
    assert!(level.push_back(OrderHandle(1), Quantity(100)));
    assert!(level.push_back(OrderHandle(2), Quantity(200)));
    assert!(level.push_back(OrderHandle(3), Quantity(300)));

    assert_eq!(level.len(), 3);
    assert_eq!(level.total_qty.0, 600);

    // Pop in FIFO order
    assert_eq!(level.pop_front(), Some(OrderHandle(1)));
    assert_eq!(level.pop_front(), Some(OrderHandle(2)));
    assert_eq!(level.pop_front(), Some(OrderHandle(3)));
    assert_eq!(level.pop_front(), None);

    assert!(level.is_empty());
}

#[test]
fn test_level_wrap_around() {
    let mut level = PriceLevel::new();

    // Fill half
    for i in 0..512 {
        assert!(level.push_back(OrderHandle(i), Quantity(1)));
    }

    // Pop half
    for i in 0..256 {
        assert_eq!(level.pop_front().map(|h| h.0), Some(i));
    }

    // Push more (should wrap around)
    for i in 512..768 {
        assert!(level.push_back(OrderHandle(i), Quantity(1)));
    }

    // Pop remaining
    for i in 256..768 {
        assert_eq!(level.pop_front().map(|h| h.0), Some(i));
    }

    assert!(level.is_empty());
}

#[test]
fn test_level_front() {
    let mut level = PriceLevel::new();
    assert!(level.front().is_none());

    level.push_back(OrderHandle(42), Quantity(100));
    assert_eq!(level.front(), Some(OrderHandle(42)));

    // Front doesn't remove
    assert_eq!(level.front(), Some(OrderHandle(42)));
    assert_eq!(level.len(), 1);
}

#[test]
fn test_level_iterator() {
    let mut level = PriceLevel::new();
    level.push_back(OrderHandle(1), Quantity(1));
    level.push_back(OrderHandle(2), Quantity(1));
    level.push_back(OrderHandle(3), Quantity(1));

    let mut handles: Vec<u32> = Vec::new();
    let mut it = level.iter();
    assert_eq!(it.size_hint(), (3, Some(3)));
    while let Some(h) = it.next() {
        handles.push(h.0);
    }
    assert_eq!(handles, vec![1, 2, 3]);
    assert_eq!(it.next(), None);
    assert_eq!(it.size_hint(), (0, Some(0)));
    assert_eq!(level.handles(), vec![OrderHandle(1), OrderHandle(2), OrderHandle(3)]);
}

#[test]
fn a_full_level_refuses_more() {
    let mut level = PriceLevel::new();
    for i in 0..MAX_ORDERS_PER_LEVEL as u32 {
        assert!(!level.is_full());
        assert!(level.push_back(OrderHandle(i), Quantity(2)));
    }
    assert!(level.is_full());
    assert_eq!(level.len(), MAX_ORDERS_PER_LEVEL);
    assert!(!level.push_back(OrderHandle(5000), Quantity(2)));
    assert_eq!(level.len(), MAX_ORDERS_PER_LEVEL);
    assert_eq!(level.total_qty(), Quantity(2048));
    assert_eq!(level.front(), Some(OrderHandle(0)));
    assert_eq!(level.pop_front(), Some(OrderHandle(0)));
    assert!(level.push_back(OrderHandle(5000), Quantity(2)));
    assert_eq!(level.handles().last(), Some(&OrderHandle(5000)));
}

#[test]
fn pop_front_leaves_the_aggregate() {
    let mut level = PriceLevel::new();
    level.push_back(OrderHandle(1), Quantity(100));
    level.push_back(OrderHandle(2), Quantity(200));
    assert_eq!(level.pop_front(), Some(OrderHandle(1)));
    assert_eq!(level.total_qty.0, 300);
    level.reduce_qty(Quantity(100));
    assert_eq!(level.total_qty.0, 200);
    level.reduce_qty(Quantity(500));
    assert_eq!(level.total_qty.0, 0);
    level.add_qty(Quantity(7));
    assert_eq!(level.total_qty.0, 7);
    level.add_qty(Quantity(u64::MAX));
    assert_eq!(level.total_qty.0, u64::MAX);
    assert_eq!(level.peek(), Some(OrderHandle(2)));
}

#[test]
fn remove_takes_out_the_first_occurrence() {
    let mut level = PriceLevel::new();
    for i in [10u32, 20, 30, 20, 40] {
        level.push_back(OrderHandle(i), Quantity(1));
    }
    assert!(level.remove(OrderHandle(20)));
    assert_eq!(
        level.handles(),
        vec![OrderHandle(10), OrderHandle(30), OrderHandle(20), OrderHandle(40)]
    );
    assert_eq!(level.total_qty.0, 5);
    assert!(!level.remove(OrderHandle(99)));
    assert_eq!(level.len(), 4);
    assert!(level.remove(OrderHandle(40)));
    assert!(level.remove(OrderHandle(10)));
    assert_eq!(level.handles(), vec![OrderHandle(30), OrderHandle(20)]);
    assert!(level.push_back(OrderHandle(50), Quantity(1)));
    assert_eq!(level.handles(), vec![OrderHandle(30), OrderHandle(20), OrderHandle(50)]);
}

#[test]
fn remove_works_across_the_wrap() {
    let mut level = PriceLevel::new();
    for i in 0..1020u32 {
        level.push_back(OrderHandle(i), Quantity(1));
    }
    for _ in 0..1020 {
        level.pop_front();
    }
    for i in 0..8u32 {
        level.push_back(OrderHandle(100 + i), Quantity(1));
    }
    assert!(level.remove(OrderHandle(102)));
    assert!(level.remove(OrderHandle(106)));
    let left: Vec<u32> = level.handles().iter().map(|h| h.0).collect();
    assert_eq!(left, vec![100, 101, 103, 104, 105, 107]);
    assert!(level.push_back(OrderHandle(200), Quantity(1)));
    let mut popped = Vec::new();
    while let Some(h) = level.pop_front() {
        popped.push(h.0);
    }
    assert_eq!(popped, vec![100, 101, 103, 104, 105, 107, 200]);
}

#[test]
fn clear_and_default() {
    let mut level = PriceLevel::default();
    level.push_back(OrderHandle(1), Quantity(5));
    level.clear();
    assert!(level.is_empty());
    assert_eq!(level.total_qty.0, 0);
    assert_eq!(level.front(), None);
    assert!(level.push_back(OrderHandle(2), Quantity(5)));
    assert_eq!(level.front(), Some(OrderHandle(2)));
}
