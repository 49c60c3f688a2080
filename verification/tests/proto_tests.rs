use std::mem::size_of;
use titan::messages::{
    CancelOrderMessage, ExecType, ExecutionReport, MessageHeader, MessageType, NewOrderMessage,
    QuoteMessage, TradeMessage, CANCEL_ORDER_SIZE, EXECUTION_REPORT_SIZE, HEADER_SIZE,
    NEW_ORDER_SIZE, QUOTE_SIZE, TRADE_SIZE,
};
use titan::parser::{MessageBuilder, MessageParser, ParseError};

fn new_order_bytes(msg: &NewOrderMessage) -> [u8; 64] {
    let mut bytes = [0u8; 64];
    assert_eq!(msg.write_to(&mut bytes), 64);
    bytes
}

#[test]
fn test_message_sizes() {
    assert_eq!(size_of::<MessageHeader>(), 8);
    assert_eq!(size_of::<NewOrderMessage>(), 64);
    assert_eq!(size_of::<CancelOrderMessage>(), 32);
    assert_eq!(size_of::<ExecutionReport>(), 64);
}

#[test]
fn test_new_order_creation() {
    let msg = NewOrderMessage::new(1, 12345, 42, 0, 0, 10000, 100);
    let msg_type = msg.header.msg_type;
    let order_id = msg.order_id;
    let symbol_id = msg.symbol_id;
    assert_eq!(msg_type, MessageType::NewOrder.code());
    assert_eq!(order_id, 12345);
    assert_eq!(symbol_id, 42);
}

#[test]
fn test_parse_new_order() {
    let msg = NewOrderMessage::new(1, 12345, 42, 0, 0, 10000, 100);
    let bytes = new_order_bytes(&msg);

    let parsed = MessageParser::parse_new_order(&bytes).unwrap();
    let order_id = parsed.order_id;
    let symbol_id = parsed.symbol_id;
    let price = parsed.price;
    assert_eq!(order_id, 12345);
    assert_eq!(symbol_id, 42);
    assert_eq!(price, 10000);
}

#[test]
fn test_validate_message() {
    let msg = NewOrderMessage::new(1, 12345, 42, 0, 0, 10000, 100);
    let bytes = new_order_bytes(&msg);

    let (msg_type, len) = MessageParser::validate_message(&bytes).unwrap();
    assert_eq!(msg_type, MessageType::NewOrder);
    assert_eq!(len, 64);
}

#[test]
fn test_buffer_too_small() {
    let buffer = [0u8; 4]; // Too small for header
    let result = MessageParser::parse_header(&buffer);
    assert!(matches!(result, Err(ParseError::BufferTooSmall)));
}

#[test]
fn sizes_of_the_market_data_messages() {
    assert_eq!(size_of::<QuoteMessage>(), 32);
    assert_eq!(size_of::<TradeMessage>(), 48);
    assert_eq!(
        (HEADER_SIZE, NEW_ORDER_SIZE, CANCEL_ORDER_SIZE, EXECUTION_REPORT_SIZE, QUOTE_SIZE, TRADE_SIZE),
        (8, 64, 32, 64, 32, 48)
    );
}

#[test]
fn new_order_wire_layout() {
    let mut msg = NewOrderMessage::new(0x0403_0201, 0x1122_3344_5566_7788, 0xAABB_CCDD, 1, 3, 0x0102, 0xFF00);
    for (i, b) in msg.client_order_id.iter_mut().enumerate() {
        *b = 100 + i as u8;
    }
    msg._reserved = [9, 8, 7, 6];
    let bytes = new_order_bytes(&msg);
    let mut expected = vec![0x01, 0x00, 56, 0x00, 0x01, 0x02, 0x03, 0x04];
    expected.extend_from_slice(&[0x88, 0x77, 0x66, 0x55, 0x44, 0x33, 0x22, 0x11]);
    expected.extend_from_slice(&[0xDD, 0xCC, 0xBB, 0xAA]);
    expected.extend_from_slice(&[1, 3, 0, 0]);
    expected.extend_from_slice(&[0x02, 0x01, 0, 0, 0, 0, 0, 0]);
    expected.extend_from_slice(&[0x00, 0xFF, 0, 0, 0, 0, 0, 0]);
    expected.extend((0..20u8).map(|i| 100 + i));
    expected.extend_from_slice(&[9, 8, 7, 6]);
    assert_eq!(bytes.to_vec(), expected);

    let parsed = MessageParser::parse_new_order(&bytes).unwrap();
    assert_eq!(parsed.header.sequence, 0x0403_0201);
    assert_eq!(parsed.header.length, 56);
    assert_eq!(parsed.header.flags, 0);
    assert_eq!(parsed.order_id, msg.order_id);
    assert_eq!(parsed.symbol_id, msg.symbol_id);
    assert_eq!((parsed.side, parsed.order_type, parsed._padding1), (1, 3, 0));
    assert_eq!(parsed.price, 0x0102);
    assert_eq!(parsed.quantity, 0xFF00);
    assert_eq!(parsed.client_order_id, msg.client_order_id);
    assert_eq!(parsed._reserved, [9, 8, 7, 6]);
    assert_eq!(new_order_bytes(&parsed), bytes);
}

#[test]
fn parsing_reads_only_the_front() {
    let msg = CancelOrderMessage::new(7, 99, 5);
    let mut bytes = [0xEEu8; 40];
    assert_eq!(msg.write_to(&mut bytes), 32);
    assert_eq!(&bytes[32..], &[0xEE; 8]);
    let parsed = MessageParser::parse_cancel(&bytes).unwrap();
    assert_eq!(parsed.header.msg_type, MessageType::CancelOrder.code());
    assert_eq!(parsed.header.length, 24);
    assert_eq!(parsed.header.sequence, 7);
    assert_eq!(parsed.order_id, 99);
    assert_eq!(parsed.symbol_id, 5);
    assert_eq!(parsed._reserved, [0; 12]);
    assert!(matches!(MessageParser::parse_cancel(&bytes[..31]), Err(ParseError::BufferTooSmall)));
    assert!(MessageParser::parse_cancel(&bytes[..32]).is_ok());
}

#[test]
fn short_buffers_are_refused() {
    let bytes = [0u8; 63];
    assert!(matches!(MessageParser::parse_new_order(&bytes), Err(ParseError::BufferTooSmall)));
    assert!(matches!(MessageParser::parse_execution_report(&bytes), Err(ParseError::BufferTooSmall)));
    assert!(matches!(MessageParser::parse_header(&bytes[..7]), Err(ParseError::BufferTooSmall)));
    assert!(MessageParser::parse_header(&bytes[..8]).is_ok());
    assert!(matches!(MessageParser::parse_header(&[]), Err(ParseError::BufferTooSmall)));
}

#[test]
fn header_round_trip() {
    let header = MessageHeader::new(0x21, 0xBEEF, 0xDEAD_BEEF);
    assert_eq!(header.flags, 0);
    assert_eq!(header.total_size(), 8 + 0xBEEF);
    let mut bytes = [0u8; 8];
    assert_eq!(header.write_to(&mut bytes), 8);
    assert_eq!(bytes, [0x21, 0, 0xEF, 0xBE, 0xEF, 0xBE, 0xAD, 0xDE]);
    let parsed = MessageParser::parse_header(&bytes).unwrap();
    assert_eq!(
        (parsed.msg_type, parsed.flags, parsed.length, parsed.sequence),
        (0x21, 0, 0xBEEF, 0xDEAD_BEEF)
    );
}

#[test]
fn message_type_codes() {
    let all = [
        (MessageType::NewOrder, 0x01u8),
        (MessageType::CancelOrder, 0x02),
        (MessageType::ModifyOrder, 0x03),
        (MessageType::ExecutionReport, 0x10),
        (MessageType::OrderAck, 0x11),
        (MessageType::OrderReject, 0x12),
        (MessageType::CancelAck, 0x13),
        (MessageType::Trade, 0x20),
        (MessageType::Quote, 0x21),
        (MessageType::BookUpdate, 0x22),
        (MessageType::Heartbeat, 0xFE),
        (MessageType::SystemError, 0xFF),
    ];
    for (message_type, code) in all {
        assert_eq!(message_type.code(), code);
        assert_eq!(MessageType::try_from(code), Ok(message_type));
    }
    let known: Vec<u8> = all.iter().map(|(_, c)| *c).collect();
    for code in 0..=255u8 {
        if !known.contains(&code) {
            assert_eq!(MessageType::try_from(code), Err(()));
        }
    }
    assert_eq!(
        [ExecType::New, ExecType::Fill, ExecType::PartialFill, ExecType::Canceled, ExecType::Rejected]
            .map(|e| e.code()),
        [0, 1, 2, 3, 4]
    );
}

#[test]
fn validate_goes_by_type_and_length() {
    let mut bytes = [0u8; 80];
    // Unknown type byte.
    bytes[0] = 0x55;
    assert_eq!(MessageParser::validate_message(&bytes), Err(ParseError::InvalidMessageType));
    // Fixed sizes.
    for (code, size, message_type) in [
        (0x01u8, 64usize, MessageType::NewOrder),
        (0x02, 32, MessageType::CancelOrder),
        (0x10, 64, MessageType::ExecutionReport),
        (0x21, 32, MessageType::Quote),
        (0x20, 48, MessageType::Trade),
    ] {
        bytes[0] = code;
        // The length field plays no part for these.
        bytes[2] = 0xFF;
        bytes[3] = 0xFF;
        assert_eq!(MessageParser::validate_message(&bytes[..size]), Ok((message_type, size)));
        assert_eq!(MessageParser::validate_message(&bytes), Ok((message_type, size)));
        assert_eq!(MessageParser::validate_message(&bytes[..size - 1]), Err(ParseError::BufferTooSmall));
    }
    // Other types: header plus payload length.
    bytes[0] = 0xFE;
    bytes[2] = 10;
    bytes[3] = 0;
    assert_eq!(MessageParser::validate_message(&bytes), Ok((MessageType::Heartbeat, 18)));
    assert_eq!(MessageParser::validate_message(&bytes[..18]), Ok((MessageType::Heartbeat, 18)));
    assert_eq!(MessageParser::validate_message(&bytes[..17]), Err(ParseError::BufferTooSmall));
    bytes[2] = 0;
    assert_eq!(MessageParser::validate_message(&bytes[..8]), Ok((MessageType::Heartbeat, 8)));
    bytes[3] = 1;
    assert_eq!(MessageParser::validate_message(&bytes), Err(ParseError::BufferTooSmall));
    assert_eq!(MessageParser::validate_message(&bytes[..7]), Err(ParseError::BufferTooSmall));
}

#[test]
fn builder_numbers_its_messages() {
    let mut builder = MessageBuilder::new();
    assert_eq!(builder.next_sequence(), 1);
    assert_eq!(builder.next_sequence(), 2);
    assert_eq!(builder.next_exec_id(), 1);
    let mut buffer = [0xAAu8; 70];
    let size = builder.build_execution_report(&mut buffer, 77, 3, 1, 10_000, 40, 0, 123_456);
    assert_eq!(size, 64);
    assert_eq!(&buffer[64..], &[0xAA; 6]);
    let report = MessageParser::parse_execution_report(&buffer).unwrap();
    assert_eq!(report.header.msg_type, MessageType::ExecutionReport.code());
    assert_eq!(report.header.length, 56);
    assert_eq!(report.header.sequence, 3);
    assert_eq!(report.exec_id, 2);
    assert_eq!(report.order_id, 77);
    assert_eq!(report.symbol_id, 3);
    assert_eq!(report.side, 1);
    assert_eq!(report.exec_type, ExecType::Fill.code());
    assert_eq!(report.exec_price, 10_000);
    assert_eq!(report.exec_qty, 40);
    assert_eq!(report.leaves_qty, 0);
    assert_eq!(report.timestamp, 123_456);
    assert_eq!(MessageParser::validate_message(&buffer[..64]), Ok((MessageType::ExecutionReport, 64)));

    builder.build_execution_report(&mut buffer, 77, 3, 1, 10_000, 40, 5, 1);
    let report = MessageParser::parse_execution_report(&buffer).unwrap();
    assert_eq!(report.exec_type, ExecType::PartialFill.code());
    assert_eq!((report.header.sequence, report.exec_id), (4, 3));
}

#[test]
fn builder_writes_quotes() {
    let mut builder = MessageBuilder::default();
    let mut buffer = [0u8; 32];
    assert_eq!(builder.build_quote(&mut buffer, 9, 0x0A0B, 0x0C0D), 32);
    let mut expected = vec![0x21, 0, 24, 0, 1, 0, 0, 0];
    expected.extend_from_slice(&[9, 0, 0, 0, 0, 0, 0, 0]);
    expected.extend_from_slice(&[0x0B, 0x0A, 0, 0, 0, 0, 0, 0]);
    expected.extend_from_slice(&[0x0D, 0x0C, 0, 0, 0, 0, 0, 0]);
    assert_eq!(buffer.to_vec(), expected);
    assert_eq!(builder.next_sequence(), 2);
}

#[test]
fn sequence_numbers_wrap() {
    let mut builder = MessageBuilder::new();
    let mut buffer = [0u8; 32];
    let mut last = 0;
    for _ in 0..3 {
        builder.build_quote(&mut buffer, 1, 1, 1);
        last = MessageParser::parse_header(&buffer).unwrap().sequence;
    }
    assert_eq!(last, 3);
}

#[test]
fn trade_wire_layout() {
    let trade = TradeMessage {
        header: MessageHeader::new(MessageType::Trade.code(), 40, 5),
        symbol_id: 2,
        side: 1,
        _padding: [0; 3],
        price: 3,
        quantity: 4,
        timestamp: 5,
        trade_id: 6,
    };
    let mut buffer = [0xFFu8; 48];
    assert_eq!(trade.write_to(&mut buffer), 48);
    let mut expected = vec![0x20, 0, 40, 0, 5, 0, 0, 0, 2, 0, 0, 0, 1, 0, 0, 0];
    for v in [3u64, 4, 5, 6] {
        expected.extend_from_slice(&v.to_le_bytes());
    }
    assert_eq!(buffer.to_vec(), expected);
}

#[test]
fn defaults_are_zeroed() {
    let mut buffer = [0xFFu8; 64];
    NewOrderMessage::default().write_to(&mut buffer);
    assert_eq!(buffer, [0u8; 64]);
    let mut buffer = [0xFFu8; 64];
    ExecutionReport::default().write_to(&mut buffer);
    assert_eq!(buffer, [0u8; 64]);
    let mut buffer = [0xFFu8; 32];
    CancelOrderMessage::default().write_to(&mut buffer);
    assert_eq!(buffer, [0u8; 32]);
    let mut buffer = [0xFFu8; 32];
    QuoteMessage::default().write_to(&mut buffer);
    assert_eq!(buffer, [0u8; 32]);
    let mut buffer = [0xFFu8; 48];
    TradeMessage::default().write_to(&mut buffer);
    assert_eq!(buffer, [0u8; 48]);
    assert_eq!(MessageHeader::default().total_size(), 8);
}
