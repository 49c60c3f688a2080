//! Message parser and builder.
//!
//! Parsing reads a message from the front of a byte buffer; building writes
//! one to the front of a byte buffer. Both go by the wire form that
//! `encode` gives for each message.

use vstd::prelude::*;
use vstd::bytes::{
    lemma_auto_spec_u16_to_from_le_bytes,
    lemma_auto_spec_u32_to_from_le_bytes,
    lemma_auto_spec_u64_to_from_le_bytes,
    spec_u16_to_le_bytes,
    spec_u32_to_le_bytes,
    spec_u64_to_le_bytes,
    u16_from_le_bytes,
    u32_from_le_bytes,
    u64_from_le_bytes,
};
use vstd::slice::slice_subrange;
use crate::messages::{
    CancelOrderMessage,
    ExecutionReport,
    MessageHeader,
    MessageType,
    NewOrderMessage,
    QuoteMessage,
    TradeMessage,
    CANCEL_ORDER_SIZE,
    EXECUTION_REPORT_SIZE,
    HEADER_SIZE,
    NEW_ORDER_SIZE,
    QUOTE_SIZE,
    TRADE_SIZE,
};

verus! {

/// Parse error types.
#[derive(Clone, Copy, Debug, PartialEq, Eq, Structural)]
pub enum ParseError {
    /// Buffer doesn't have enough bytes.
    BufferTooSmall,
    /// Invalid message type in header.
    InvalidMessageType,
    /// Message length doesn't match expected.
    InvalidLength,
    /// Buffer is not properly aligned.
    MisalignedBuffer,
}

/// Read a little-endian `u16` at offset `at`.
fn read_u16(buffer: &[u8], at: usize) -> (value: u16)
    requires
        at + 2 <= buffer@.len(),
    ensures
        spec_u16_to_le_bytes(value) == buffer@.subrange(at as int, at + 2),
{
    proof {
        lemma_auto_spec_u16_to_from_le_bytes();
    }
    let len = buffer.len();
    assert(at + 2 <= len);
    u16_from_le_bytes(slice_subrange(buffer, at, at + 2))
}

/// Read a little-endian `u32` at offset `at`.
fn read_u32(buffer: &[u8], at: usize) -> (value: u32)
    requires
        at + 4 <= buffer@.len(),
    ensures
        spec_u32_to_le_bytes(value) == buffer@.subrange(at as int, at + 4),
{
    proof {
        lemma_auto_spec_u32_to_from_le_bytes();
    }
    let len = buffer.len();
    assert(at + 4 <= len);
    u32_from_le_bytes(slice_subrange(buffer, at, at + 4))
}

/// Read a little-endian `u64` at offset `at`.
fn read_u64(buffer: &[u8], at: usize) -> (value: u64)
    requires
        at + 8 <= buffer@.len(),
    ensures
        spec_u64_to_le_bytes(value) == buffer@.subrange(at as int, at + 8),
{
    proof {
        lemma_auto_spec_u64_to_from_le_bytes();
    }
    let len = buffer.len();
    assert(at + 8 <= len);
    u64_from_le_bytes(slice_subrange(buffer, at, at + 8))
}

/// Parser for the messages of the wire protocol.
pub struct MessageParser {}

impl MessageParser {
    /// Read the header described by the first eight bytes of `buffer`.
    fn header_at_front(buffer: &[u8]) -> (header: MessageHeader)
        requires
            buffer@.len() >= HEADER_SIZE,
        ensures
            header == MessageHeader::decode(buffer@),
            header.encode() == buffer@.take(HEADER_SIZE as int),
    {
        let header = MessageHeader {
            msg_type: buffer[0],
            flags: buffer[1],
            length: read_u16(buffer, 2),
            sequence: read_u32(buffer, 4),
        };
        proof {
            assert(header.encode() =~= buffer@.take(HEADER_SIZE as int));
            header.lemma_decode(buffer@);
            header.lemma_encode(MessageHeader::decode(buffer@));
        }
        header
    }

    /// Parse a message header from the front of `buffer`.
    ///
    /// Fails with `BufferTooSmall` exactly if the buffer holds fewer than
    /// eight bytes.
    pub fn parse_header(buffer: &[u8]) -> (parsed: Result<MessageHeader, ParseError>)
        ensures
            parsed == if buffer@.len() < HEADER_SIZE {
                Err::<MessageHeader, ParseError>(ParseError::BufferTooSmall)
            } else {
                Ok::<MessageHeader, ParseError>(MessageHeader::decode(buffer@))
            },
    {
        if buffer.len() < HEADER_SIZE {
            return Err(ParseError::BufferTooSmall);
        }
        Ok(Self::header_at_front(buffer))
    }

    /// Parse a new-order message from the front of `buffer`.
    ///
    /// Fails with `BufferTooSmall` exactly if the buffer holds fewer than
    /// 64 bytes.
    pub fn parse_new_order(buffer: &[u8]) -> (parsed: Result<NewOrderMessage, ParseError>)
        ensures
            buffer@.len() < NEW_ORDER_SIZE ==> parsed == Err::<NewOrderMessage, ParseError>(
                ParseError::BufferTooSmall,
            ),
            buffer@.len() >= NEW_ORDER_SIZE ==> parsed is Ok && parsed->Ok_0.encode()
                == buffer@.take(NEW_ORDER_SIZE as int),
    {
        if buffer.len() < NEW_ORDER_SIZE {
            return Err(ParseError::BufferTooSmall);
        }
        let mut client_order_id = [0u8; 20];
        let mut i: usize = 0;
        while i < 20
            invariant
                i <= 20,
                buffer@.len() >= NEW_ORDER_SIZE,
                forall|k: int| 0 <= k < i ==> client_order_id@[k] == buffer@[40 + k],
            decreases 20 - i,
        {
            client_order_id[i] = buffer[40 + i];
            i = i + 1;
        }
        let mut reserved = [0u8; 4];
        let mut j: usize = 0;
        while j < 4
            invariant
                j <= 4,
                buffer@.len() >= NEW_ORDER_SIZE,
                forall|k: int| 0 <= k < j ==> reserved@[k] == buffer@[60 + k],
            decreases 4 - j,
        {
            reserved[j] = buffer[60 + j];
            j = j + 1;
        }
        let message = NewOrderMessage {
            header: Self::header_at_front(buffer),
            order_id: read_u64(buffer, 8),
            symbol_id: read_u32(buffer, 16),
            side: buffer[20],
            order_type: buffer[21],
            _padding1: read_u16(buffer, 22),
            price: read_u64(buffer, 24),
            quantity: read_u64(buffer, 32),
            client_order_id,
            _reserved: reserved,
        };
        proof {
            assert(message.client_order_id@ =~= buffer@.subrange(40, 60));
            assert(message._reserved@ =~= buffer@.subrange(60, 64));
            assert(message.encode() =~= buffer@.take(NEW_ORDER_SIZE as int));
        }
        Ok(message)
    }

    /// Parse a cancel-order message from the front of `buffer`.
    ///
    /// Fails with `BufferTooSmall` exactly if the buffer holds fewer than
    /// 32 bytes.
    pub fn parse_cancel(buffer: &[u8]) -> (parsed: Result<CancelOrderMessage, ParseError>)
        ensures
            buffer@.len() < CANCEL_ORDER_SIZE ==> parsed == Err::<CancelOrderMessage, ParseError>(
                ParseError::BufferTooSmall,
            ),
            buffer@.len() >= CANCEL_ORDER_SIZE ==> parsed is Ok && parsed->Ok_0.encode()
                == buffer@.take(CANCEL_ORDER_SIZE as int),
    {
        if buffer.len() < CANCEL_ORDER_SIZE {
            return Err(ParseError::BufferTooSmall);
        }
        let mut reserved = [0u8; 12];
        let mut i: usize = 0;
        while i < 12
            invariant
                i <= 12,
                buffer@.len() >= CANCEL_ORDER_SIZE,
                forall|k: int| 0 <= k < i ==> reserved@[k] == buffer@[20 + k],
            decreases 12 - i,
        {
            reserved[i] = buffer[20 + i];
            i = i + 1;
        }
        let message = CancelOrderMessage {
            header: Self::header_at_front(buffer),
            order_id: read_u64(buffer, 8),
            symbol_id: read_u32(buffer, 16),
            _reserved: reserved,
        };
        proof {
            assert(message._reserved@ =~= buffer@.subrange(20, 32));
            assert(message.encode() =~= buffer@.take(CANCEL_ORDER_SIZE as int));
        }
        Ok(message)
    }

    /// Parse an execution report from the front of `buffer`.
    ///
    /// Fails with `BufferTooSmall` exactly if the buffer holds fewer than
    /// 64 bytes.
    pub fn parse_execution_report(buffer: &[u8]) -> (parsed: Result<ExecutionReport, ParseError>)
        ensures
            buffer@.len() < EXECUTION_REPORT_SIZE ==> parsed == Err::<ExecutionReport, ParseError>(
                ParseError::BufferTooSmall,
            ),
            buffer@.len() >= EXECUTION_REPORT_SIZE ==> parsed is Ok && parsed->Ok_0.encode()
                == buffer@.take(EXECUTION_REPORT_SIZE as int),
    {
        if buffer.len() < EXECUTION_REPORT_SIZE {
            return Err(ParseError::BufferTooSmall);
        }
        let report = ExecutionReport {
            header: Self::header_at_front(buffer),
            order_id: read_u64(buffer, 8),
            exec_id: read_u64(buffer, 16),
            symbol_id: read_u32(buffer, 24),
            side: buffer[28],
            exec_type: buffer[29],
            _padding1: read_u16(buffer, 30),
            exec_price: read_u64(buffer, 32),
            exec_qty: read_u64(buffer, 40),
            leaves_qty: read_u64(buffer, 48),
            timestamp: read_u64(buffer, 56),
        };
        assert(report.encode() =~= buffer@.take(EXECUTION_REPORT_SIZE as int));
        Ok(report)
    }

    /// The length that a message with the given header has: the fixed size
    /// of its type, or header plus payload length for a type without one.
    pub open spec fn expected_len(message_type: MessageType, header: MessageHeader) -> usize {
        match message_type.fixed_size() {
            Some(size) => size,
            None => (HEADER_SIZE + header.length) as usize,
        }
    }

    /// What validation makes of a buffer that starts with `header`.
    pub open spec fn validated(header: MessageHeader, len: nat) -> Result<
        (MessageType, usize),
        ParseError,
    > {
        match MessageType::spec_from_code(header.msg_type) {
            None => Err(ParseError::InvalidMessageType),
            Some(message_type) => if len < Self::expected_len(message_type, header) {
                Err(ParseError::BufferTooSmall)
            } else {
                Ok((message_type, Self::expected_len(message_type, header)))
            },
        }
    }

    /// Determine the type of the message at the front of `buffer` and check
    /// that the buffer holds all of it.
    ///
    /// Fails with `BufferTooSmall` if the buffer holds no whole header or
    /// less than the message's length, and with `InvalidMessageType` if the
    /// header's type byte stands for no type. Otherwise returns the type and
    /// the length of the message.
    pub fn validate_message(buffer: &[u8]) -> (checked: Result<(MessageType, usize), ParseError>)
        ensures
            checked == if buffer@.len() < HEADER_SIZE {
                Err::<(MessageType, usize), ParseError>(ParseError::BufferTooSmall)
            } else {
                Self::validated(MessageHeader::decode(buffer@), buffer@.len())
            },
    {
        let header = match Self::parse_header(buffer) {
            Ok(header) => header,
            Err(error) => {
                return Err(error);
            },
        };
        let message_type = match MessageType::try_from(header.msg_type) {
            Ok(message_type) => message_type,
            Err(_) => {
                return Err(ParseError::InvalidMessageType);
            },
        };
        let expected_len = match message_type {
            MessageType::NewOrder => NEW_ORDER_SIZE,
            MessageType::CancelOrder => CANCEL_ORDER_SIZE,
            MessageType::ExecutionReport => EXECUTION_REPORT_SIZE,
            MessageType::Quote => QUOTE_SIZE,
            MessageType::Trade => TRADE_SIZE,
            _ => HEADER_SIZE + header.length as usize,
        };
        if buffer.len() < expected_len {
            return Err(ParseError::BufferTooSmall);
        }
        Ok((message_type, expected_len))
    }
}

/// Builder for outbound messages. It numbers the messages it builds.
pub struct MessageBuilder {
    sequence: u32,
    exec_id: u64,
}

impl MessageBuilder {
    /// The sequence number of the message built last.
    pub closed spec fn spec_sequence(&self) -> u32 {
        self.sequence
    }

    /// The execution id handed out last.
    pub closed spec fn spec_exec_id(&self) -> u64 {
        self.exec_id
    }

    /// The sequence number of the message built last.
    #[verifier::when_used_as_spec(spec_sequence)]
    pub fn sequence(&self) -> (sequence: u32)
        ensures
            sequence == self.spec_sequence(),
    {
        self.sequence
    }

    /// The execution id handed out last.
    #[verifier::when_used_as_spec(spec_exec_id)]
    pub fn exec_id(&self) -> (exec_id: u64)
        ensures
            exec_id == self.spec_exec_id(),
    {
        self.exec_id
    }

    /// The sequence number after `sequence`; it wraps around to zero.
    pub open spec fn sequence_after(sequence: u32) -> u32 {
        if sequence == u32::MAX {
            0
        } else {
            (sequence + 1) as u32
        }
    }

    /// Create a new message builder.
    pub fn new() -> (builder: Self)
        ensures
            builder.sequence() == 0,
            builder.exec_id() == 0,
    {
        MessageBuilder { sequence: 0, exec_id: 0 }
    }

    /// Get the next sequence number.
    pub fn next_sequence(&mut self) -> (sequence: u32)
        ensures
            sequence == Self::sequence_after(old(self).sequence()),
            final(self).sequence() == sequence,
            final(self).exec_id() == old(self).exec_id(),
    {
        self.sequence = if self.sequence == u32::MAX {
            0
        } else {
            self.sequence + 1
        };
        self.sequence
    }

    /// Get the next execution id.
    pub fn next_exec_id(&mut self) -> (exec_id: u64)
        requires
            old(self).exec_id() < u64::MAX,
        ensures
            exec_id == old(self).exec_id() + 1,
            final(self).exec_id() == exec_id,
            final(self).sequence() == old(self).sequence(),
    {
        self.exec_id = self.exec_id + 1;
        self.exec_id
    }

    /// Build an execution report at the front of `buffer`, under the next
    /// sequence number and the next execution id.
    ///
    /// Returns the number of bytes written; the rest of the buffer is left
    /// as it was.
    pub fn build_execution_report(
        &mut self,
        buffer: &mut [u8],
        order_id: u64,
        symbol_id: u32,
        side: u8,
        price: u64,
        qty: u64,
        leaves_qty: u64,
        timestamp: u64,
    ) -> (size: usize)
        requires
            old(buffer)@.len() >= EXECUTION_REPORT_SIZE,
            old(self).exec_id() < u64::MAX,
        ensures
            size == EXECUTION_REPORT_SIZE,
            final(self).sequence() == Self::sequence_after(old(self).sequence()),
            final(self).exec_id() == old(self).exec_id() + 1,
            final(buffer)@ == ExecutionReport::spec_new_fill(
                final(self).sequence(),
                order_id,
                final(self).exec_id(),
                symbol_id,
                side,
                price,
                qty,
                leaves_qty,
                timestamp,
            ).encode() + old(buffer)@.skip(EXECUTION_REPORT_SIZE as int),
    {
        let sequence = self.next_sequence();
        let exec_id = self.next_exec_id();
        let report = ExecutionReport::new_fill(
            sequence,
            order_id,
            exec_id,
            symbol_id,
            side,
            price,
            qty,
            leaves_qty,
            timestamp,
        );
        report.write_to(buffer);
        EXECUTION_REPORT_SIZE
    }

    /// Build a quote message at the front of `buffer`, under the next
    /// sequence number.
    ///
    /// Returns the number of bytes written; the rest of the buffer is left
    /// as it was.
    pub fn build_quote(
        &mut self,
        buffer: &mut [u8],
        symbol_id: u32,
        bid_price: u64,
        ask_price: u64,
    ) -> (size: usize)
        requires
            old(buffer)@.len() >= QUOTE_SIZE,
        ensures
            size == QUOTE_SIZE,
            final(self).sequence() == Self::sequence_after(old(self).sequence()),
            final(self).exec_id() == old(self).exec_id(),
            final(buffer)@ == QuoteMessage::spec_new(
                final(self).sequence(),
                symbol_id,
                bid_price,
                ask_price,
            ).encode() + old(buffer)@.skip(QUOTE_SIZE as int),
    {
        let quote = QuoteMessage {
            header: MessageHeader::new(
                MessageType::Quote.code(),
                (QUOTE_SIZE - HEADER_SIZE) as u16,
                self.next_sequence(),
            ),
            symbol_id,
            _padding: 0,
            bid_price,
            ask_price,
        };
        quote.write_to(buffer);
        QUOTE_SIZE
    }

    /// Build a trade message at the front of `buffer`, under the next
    /// sequence number.
    ///
    /// Returns the number of bytes written; the rest of the buffer is left
    /// as it was.
    pub fn build_trade(
        &mut self,
        buffer: &mut [u8],
        symbol_id: u32,
        side: u8,
        price: u64,
        quantity: u64,
        timestamp: u64,
        trade_id: u64,
    ) -> (size: usize)
        requires
            old(buffer)@.len() >= TRADE_SIZE,
        ensures
            size == TRADE_SIZE,
            final(self).sequence() == Self::sequence_after(old(self).sequence()),
            final(self).exec_id() == old(self).exec_id(),
            final(buffer)@ == TradeMessage::wire_form(
                final(self).sequence(),
                symbol_id,
                side,
                price,
                quantity,
                timestamp,
                trade_id,
            ) + old(buffer)@.skip(TRADE_SIZE as int),
    {
        let trade = TradeMessage {
            header: MessageHeader::new(
                MessageType::Trade.code(),
                (TRADE_SIZE - HEADER_SIZE) as u16,
                self.next_sequence(),
            ),
            symbol_id,
            side,
            _padding: [0u8; 3],
            price,
            quantity,
            timestamp,
            trade_id,
        };
        trade.write_to(buffer);
        proof {
            assert(trade._padding@ =~= seq![0u8, 0u8, 0u8]);
            assert(trade.encode() =~= TradeMessage::wire_form(
                trade.header.sequence,
                symbol_id,
                side,
                price,
                quantity,
                timestamp,
                trade_id,
            ));
        }
        TRADE_SIZE
    }
}

impl Default for MessageBuilder {
    fn default() -> (builder: Self)
        ensures
            builder.sequence() == 0,
            builder.exec_id() == 0,
    {
        MessageBuilder::new()
    }
}

} // verus!
