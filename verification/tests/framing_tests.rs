use titan::framing::{parse_messages, Command, ReadBuffer, WriteBuffer, READ_BUFFER_SIZE, WRITE_BUFFER_SIZE};
use titan::generator::OrderGenerator;
use titan::messages::{CancelOrderMessage, MessageHeader, MessageType, NewOrderMessage};
use titan::order::{OrderId, OrderType, Side, SymbolId};
use titan::parser::{MessageBuilder, MessageParser};
use titan::{Price, Quantity};

fn new_order(seq: u32, id: u64, price: u64, qty: u64) -> Vec<u8> {
    let mut bytes = vec![0u8; 64];
    NewOrderMessage::new(seq, id, 7, 1, 2, price, qty).write_to(&mut bytes);
    bytes
}

fn cancel(seq: u32, id: u64) -> Vec<u8> {
    let mut bytes = vec![0u8; 32];
    CancelOrderMessage::new(seq, id, 7).write_to(&mut bytes);
    bytes
}

fn heartbeat(payload: u16) -> Vec<u8> {
    let mut bytes = vec![0xABu8; 8 + payload as usize];
    MessageHeader::new(MessageType::Heartbeat.code(), payload, 0).write_to(&mut bytes);
    bytes
}

#[test]
fn commands_come_out_in_message_order() {
    let mut stream = Vec::new();
    stream.extend(new_order(1, 11, 10_000, 5));
    stream.extend(cancel(2, 11));
    stream.extend(heartbeat(3));
    stream.extend(new_order(3, 12, 10_100, 6));
    let (commands, consumed) = parse_messages(&stream);
    assert_eq!(consumed, 64 + 32 + 11 + 64);
    assert_eq!(
        commands,
        vec![
            Command::NewOrder { order_id: 11, symbol_id: 7, side: 1, order_type: 2, price: 10_000, quantity: 5 },
            Command::CancelOrder { order_id: 11, symbol_id: 7 },
            Command::NewOrder { order_id: 12, symbol_id: 7, side: 1, order_type: 2, price: 10_100, quantity: 6 },
        ]
    );
}

#[test]
fn an_incomplete_message_stays() {
    let mut stream = cancel(1, 5);
    stream.extend(&new_order(2, 6, 1, 1)[..63]);
    let (commands, consumed) = parse_messages(&stream);
    assert_eq!(consumed, 32);
    assert_eq!(commands, vec![Command::CancelOrder { order_id: 5, symbol_id: 7 }]);
    let (commands, consumed) = parse_messages(&stream[..7]);
    assert_eq!((commands.len(), consumed), (0, 0));
    let (commands, consumed) = parse_messages(&[]);
    assert_eq!((commands.len(), consumed), (0, 0));
}

#[test]
fn an_unknown_type_stops_the_reading() {
    let mut stream = cancel(1, 5);
    let mut bad = new_order(2, 6, 1, 1);
    bad[0] = 0x77;
    stream.extend(bad);
    stream.extend(cancel(3, 9));
    let (commands, consumed) = parse_messages(&stream);
    assert_eq!(consumed, 32);
    assert_eq!(commands.len(), 1);
}

#[test]
fn read_buffer_collects_and_drains() {
    let mut buffer = ReadBuffer::new();
    assert_eq!(buffer.len(), 0);
    assert_eq!(buffer.free_space(), READ_BUFFER_SIZE);
    let first = new_order(1, 21, 500, 9);
    assert!(buffer.extend(&first[..40]));
    assert!(buffer.drain_commands().is_empty());
    assert_eq!(buffer.len(), 40);
    assert!(buffer.extend(&first[40..]));
    assert!(buffer.extend(&cancel(2, 21)[..10]));
    assert_eq!(buffer.len(), 74);
    let commands = buffer.drain_commands();
    assert_eq!(
        commands,
        vec![Command::NewOrder { order_id: 21, symbol_id: 7, side: 1, order_type: 2, price: 500, quantity: 9 }]
    );
    assert_eq!(buffer.len(), 10);
    assert!(buffer.extend(&cancel(2, 21)[10..]));
    assert_eq!(buffer.drain_commands(), vec![Command::CancelOrder { order_id: 21, symbol_id: 7 }]);
    assert_eq!(buffer.len(), 0);
    assert_eq!(buffer.free_space(), READ_BUFFER_SIZE);
}

#[test]
fn read_buffer_refuses_what_does_not_fit() {
    let mut buffer = ReadBuffer::new();
    assert!(buffer.extend(&vec![0x77u8; READ_BUFFER_SIZE - 1]));
    assert!(!buffer.extend(&[1, 2]));
    assert_eq!(buffer.len(), READ_BUFFER_SIZE - 1);
    assert!(buffer.extend(&[1]));
    assert!(!buffer.extend(&[1]));
    assert!(buffer.extend(&[]));
    assert_eq!(buffer.free_space(), 0);
    // 0x77 names no message type: nothing is read off.
    assert!(buffer.drain_commands().is_empty());
    assert_eq!(buffer.len(), READ_BUFFER_SIZE);
}

#[test]
fn write_buffer_queues_and_advances() {
    let mut buffer = WriteBuffer::new();
    assert!(buffer.pending().is_empty());
    assert!(buffer.queue_write(&[1, 2, 3]));
    assert!(buffer.queue_write(&[4, 5]));
    assert_eq!(buffer.pending(), &[1, 2, 3, 4, 5]);
    buffer.advance(2);
    assert_eq!(buffer.pending(), &[3, 4, 5]);
    assert!(buffer.queue_write(&[6]));
    assert_eq!(buffer.pending(), &[3, 4, 5, 6]);
    buffer.advance(0);
    assert_eq!(buffer.pending(), &[3, 4, 5, 6]);
    buffer.advance(4);
    assert!(buffer.pending().is_empty());
}

#[test]
fn write_buffer_space_returns_when_drained() {
    let mut buffer = WriteBuffer::new();
    assert!(buffer.queue_write(&vec![9u8; WRITE_BUFFER_SIZE - 4]));
    assert!(!buffer.queue_write(&[0; 5]));
    assert_eq!(buffer.pending().len(), WRITE_BUFFER_SIZE - 4);
    buffer.advance(100);
    // Taken bytes still occupy the buffer until everything is taken.
    assert!(!buffer.queue_write(&[0; 5]));
    assert!(buffer.queue_write(&[1, 2, 3, 4]));
    assert!(!buffer.queue_write(&[0]));
    let left = buffer.pending().len();
    assert_eq!(left, WRITE_BUFFER_SIZE - 100);
    assert_eq!(&buffer.pending()[left - 4..], &[1, 2, 3, 4]);
    buffer.advance(left);
    assert!(buffer.queue_write(&vec![7u8; WRITE_BUFFER_SIZE]));
    assert_eq!(buffer.pending().len(), WRITE_BUFFER_SIZE);
}

#[test]
fn built_trades_have_the_wire_layout() {
    let mut builder = MessageBuilder::new();
    let mut buffer = [0xFFu8; 50];
    assert_eq!(builder.build_trade(&mut buffer, 2, 1, 3, 4, 5, 6), 48);
    let mut expected = vec![0x20, 0, 40, 0, 1, 0, 0, 0, 2, 0, 0, 0, 1, 0, 0, 0];
    for v in [3u64, 4, 5, 6] {
        expected.extend_from_slice(&v.to_le_bytes());
    }
    expected.extend_from_slice(&[0xFF, 0xFF]);
    assert_eq!(buffer.to_vec(), expected);
    assert_eq!(MessageParser::validate_message(&buffer), Ok((MessageType::Trade, 48)));
    assert_eq!(builder.build_trade(&mut buffer, 2, 1, 3, 4, 5, 6), 48);
    assert_eq!(MessageParser::parse_header(&buffer).unwrap().sequence, 2);
}

#[test]
fn generator_numbers_orders_from_one() {
    let mut generator = OrderGenerator::new(SymbolId(4));
    let a = generator.next_buy(100, 10);
    let b = generator.next_sell(101, 20);
    let c = generator.next_ioc_buy(102, 30);
    assert_eq!((a.order_id, b.order_id, c.order_id), (OrderId(1), OrderId(2), OrderId(3)));
    assert_eq!((a.side, b.side, c.side), (Side::Buy, Side::Sell, Side::Buy));
    assert_eq!(
        (a.order_type, b.order_type, c.order_type),
        (OrderType::Limit, OrderType::Limit, OrderType::IOC)
    );
    assert_eq!((a.price, b.price, c.price), (Price(10_000), Price(10_100), Price(10_200)));
    assert_eq!((a.remaining_qty, b.original_qty, c.remaining_qty), (Quantity(10), Quantity(20), Quantity(30)));
    assert_eq!((a.symbol, a.timestamp), (SymbolId(4), 0));
}
