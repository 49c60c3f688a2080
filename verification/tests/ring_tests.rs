use titan::ring::{cursor_slot, SpscRing};

#[test]
fn test_single_message() {
    let mut ring: SpscRing<u64, 16> = SpscRing::new();
    let (mut producer, mut consumer) = ring.split();

    assert!(producer.try_publish(&mut ring, 42));
    assert_eq!(consumer.try_consume(&mut ring), Some(42));
    assert_eq!(consumer.try_consume(&mut ring), None);
}

#[test]
fn test_fill_drain() {
    let mut ring: SpscRing<u64, 16> = SpscRing::new();
    let (mut producer, mut consumer) = ring.split();

    // Fill completely
    for i in 0..16 {
        assert!(producer.try_publish(&mut ring, i), "Failed at {}", i);
    }

    // Should be full
    assert!(!producer.try_publish(&mut ring, 100));

    // Drain
    for i in 0..16 {
        assert_eq!(consumer.try_consume(&mut ring), Some(i));
    }

    // Should be empty
    assert_eq!(consumer.try_consume(&mut ring), None);
}

#[test]
fn test_wrap_around() {
    let mut ring: SpscRing<u64, 4> = SpscRing::new();
    let (mut producer, mut consumer) = ring.split();

    // Write and read multiple times, wrapping around
    for round in 0..10 {
        let base = round * 4;

        for i in 0..4 {
            assert!(producer.try_publish(&mut ring, base + i));
        }

        for i in 0..4 {
            assert_eq!(consumer.try_consume(&mut ring), Some(base + i));
        }
    }
}

#[test]
fn test_remaining_capacity() {
    let mut ring: SpscRing<u64, 8> = SpscRing::new();
    let (mut producer, _consumer) = ring.split();

    assert_eq!(producer.remaining_capacity(&ring), 8);

    producer.try_publish(&mut ring, 1);
    assert_eq!(producer.remaining_capacity(&ring), 7);

    producer.try_publish(&mut ring, 2);
    producer.try_publish(&mut ring, 3);
    assert_eq!(producer.remaining_capacity(&ring), 5);
}

#[test]
fn test_available() {
    let mut ring: SpscRing<u64, 8> = SpscRing::new();
    let (mut producer, consumer) = ring.split();

    assert_eq!(consumer.available(&ring), 0);

    producer.try_publish(&mut ring, 1);
    producer.try_publish(&mut ring, 2);
    assert_eq!(consumer.available(&ring), 2);
}

#[test]
fn ring_of_four_wraps_once() {
    let mut ring: SpscRing<u64, 4> = SpscRing::new();
    assert_eq!(ring.capacity(), 4);
    let (mut producer, mut consumer) = ring.split();
    for v in 1..=4u64 {
        producer.publish(&mut ring, v);
    }
    for v in 1..=4u64 {
        assert_eq!(consumer.consume(&mut ring), v);
    }
    for v in 5..=8u64 {
        producer.publish(&mut ring, v);
    }
    for v in 5..=8u64 {
        assert_eq!(consumer.consume(&mut ring), v);
    }
    assert_eq!(consumer.try_consume(&mut ring), None);
}

#[test]
fn a_slot_gives_back_the_value_it_was_given() {
    let mut ring: SpscRing<(u64, i32, [u8; 3]), 2> = SpscRing::new();
    let (mut producer, mut consumer) = ring.split();
    let values = [(u64::MAX, i32::MIN, [0u8, 255, 7]), (0, -1, [1, 2, 3]), (0x0123_4567_89ab_cdef, 0, [0; 3])];
    for value in values {
        assert!(producer.try_publish(&mut ring, value));
        assert_eq!(consumer.try_consume(&mut ring), Some(value));
    }
}

#[test]
fn interleaved_publishing_keeps_the_order() {
    let mut ring: SpscRing<u32, 8> = SpscRing::new();
    let (mut producer, mut consumer) = ring.split();
    let mut next_in = 0u32;
    let mut next_out = 0u32;
    for step in 0..200u32 {
        let burst = step % 5;
        for _ in 0..burst {
            if producer.try_publish(&mut ring, next_in) {
                next_in += 1;
            } else {
                assert_eq!(consumer.available(&ring), 8);
            }
        }
        for _ in 0..(step % 3) {
            match consumer.try_consume(&mut ring) {
                Some(v) => {
                    assert_eq!(v, next_out);
                    next_out += 1;
                }
                None => assert_eq!(next_out, next_in),
            }
        }
        assert_eq!(consumer.available(&ring) as u32, next_in - next_out);
        assert_eq!(producer.remaining_capacity(&ring) as u32, 8 - (next_in - next_out));
    }
}

#[test]
fn batches() {
    let mut ring: SpscRing<u8, 8> = SpscRing::new();
    let (mut producer, mut consumer) = ring.split();
    producer.publish_batch(&mut ring, &[1, 2, 3, 4, 5]);
    assert_eq!(consumer.available(&ring), 5);
    let mut out = [0u8; 3];
    assert_eq!(consumer.consume_batch(&mut ring, &mut out), 3);
    assert_eq!(out, [1, 2, 3]);
    let mut out = [9u8; 4];
    assert_eq!(consumer.consume_batch(&mut ring, &mut out), 2);
    assert_eq!(out, [4, 5, 9, 9]);
    assert_eq!(consumer.consume_batch(&mut ring, &mut out), 0);
    assert_eq!(out, [4, 5, 9, 9]);
    producer.publish_batch(&mut ring, &[]);
    assert_eq!(consumer.available(&ring), 0);
    producer.publish_batch(&mut ring, &[6, 7, 8, 9, 10, 11, 12, 13]);
    assert!(!producer.try_publish(&mut ring, 14));
    let mut none: [u8; 0] = [];
    assert_eq!(consumer.consume_batch(&mut ring, &mut none), 0);
    assert_eq!(consumer.consume(&mut ring), 6);
}

#[test]
fn a_ring_of_one_slot() {
    let mut ring: SpscRing<char, 1> = SpscRing::new();
    let (mut producer, mut consumer) = ring.split();
    assert!(producer.try_publish(&mut ring, 'a'));
    assert!(!producer.try_publish(&mut ring, 'b'));
    assert_eq!(consumer.try_consume(&mut ring), Some('a'));
    assert!(producer.try_publish(&mut ring, 'c'));
    assert_eq!(consumer.try_consume(&mut ring), Some('c'));
}

#[test]
fn the_slot_of_a_cursor_is_its_low_bits() {
    assert_eq!(cursor_slot(0, 8), 0);
    assert_eq!(cursor_slot(7, 8), 7);
    assert_eq!(cursor_slot(8, 8), 0);
    assert_eq!(cursor_slot(13, 8), 5);
    assert_eq!(cursor_slot(u64::MAX, 1024), 1023);
    assert_eq!(cursor_slot(12345, 1), 0);
    for cursor in 0..100u64 {
        assert_eq!(cursor_slot(cursor, 16) as u64, cursor % 16);
    }
}

#[test]
fn cursors_count_what_went_through() {
    let mut ring: SpscRing<u8, 4> = SpscRing::new();
    let (mut producer, mut consumer) = ring.split();
    for v in 0..10u8 {
        producer.publish(&mut ring, v);
        if v % 2 == 1 {
            consumer.consume(&mut ring);
            consumer.consume(&mut ring);
        }
    }
    assert_eq!(ring.published(), 10);
    assert_eq!(ring.consumed(), 10);
}

#[test]
fn a_ring_records_that_it_has_been_split() {
    let mut ring: SpscRing<u64, 4> = SpscRing::new();
    assert!(!ring.is_split());
    let (mut producer, mut consumer) = ring.split();
    assert!(ring.is_split());
    assert_eq!((ring.published(), ring.consumed()), (0, 0));
    assert!(producer.try_publish(&mut ring, 3));
    assert_eq!(consumer.try_consume(&mut ring), Some(3));
    assert!(ring.is_split());
}
