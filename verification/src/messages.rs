//! Binary message definitions.
//!
//! Every message has a fixed size and starts with the same eight-byte
//! header. On the wire the fields stand in declaration order, without gaps,
//! integers in little-endian byte order. `encode` says so field by field.

use vstd::prelude::*;
use vstd::bytes::{
    lemma_auto_spec_u16_to_from_le_bytes,
    lemma_auto_spec_u32_to_from_le_bytes,
    lemma_auto_spec_u64_to_from_le_bytes,
    spec_u16_from_le_bytes,
    spec_u16_to_le_bytes,
    spec_u32_from_le_bytes,
    spec_u32_to_le_bytes,
    spec_u64_to_le_bytes,
    u16_to_le_bytes,
    u32_to_le_bytes,
    u64_to_le_bytes,
};

verus! {

/// Size of the message header in bytes.
pub const HEADER_SIZE: usize = 8;

/// Size of a new-order message in bytes.
pub const NEW_ORDER_SIZE: usize = 64;

/// Size of a cancel-order message in bytes.
pub const CANCEL_ORDER_SIZE: usize = 32;

/// Size of an execution report in bytes.
pub const EXECUTION_REPORT_SIZE: usize = 64;

/// Size of a quote message in bytes.
pub const QUOTE_SIZE: usize = 32;

/// Size of a trade message in bytes.
pub const TRADE_SIZE: usize = 48;

/// Write `bytes` into `buffer` at offset `at`.
pub(crate) fn put(buffer: &mut [u8], at: usize, bytes: &[u8])
    requires
        at + bytes@.len() <= old(buffer)@.len(),
    ensures
        final(buffer)@ == old(buffer)@.take(at as int) + bytes@ + old(buffer)@.skip(
            at + bytes@.len(),
        ),
        final(buffer)@.len() == old(buffer)@.len(),
{
    let mut i: usize = 0;
    let len = buffer.len();
    assert(buffer@ =~= old(buffer)@.take(at as int) + bytes@.take(0)
        + old(buffer)@.skip(at as int));
    while i < bytes.len()
        invariant
            i <= bytes@.len(),
            at + bytes@.len() <= old(buffer)@.len(),
            old(buffer)@.len() == len,
            buffer@ == old(buffer)@.take(at as int) + bytes@.take(i as int) + old(buffer)@.skip(
                at + i,
            ),
        decreases bytes@.len() - i,
    {
        buffer[at + i] = bytes[i];
        assert(buffer@ =~= old(buffer)@.take(at as int) + bytes@.take(i + 1)
            + old(buffer)@.skip(at + i + 1));
        i = i + 1;
    }
    assert(bytes@.take(bytes@.len() as int) =~= bytes@);
}

/// Message type discriminator.
#[derive(Clone, Copy, Debug, PartialEq, Eq, Structural)]
pub enum MessageType {
    // Inbound (client to engine)
    NewOrder,
    CancelOrder,
    ModifyOrder,
    // Outbound (engine to client)
    ExecutionReport,
    OrderAck,
    OrderReject,
    CancelAck,
    // Market data
    Trade,
    Quote,
    BookUpdate,
    // System
    Heartbeat,
    SystemError,
}

impl MessageType {
    /// The byte that stands for this type on the wire.
    pub open spec fn spec_code(self) -> u8 {
        match self {
            MessageType::NewOrder => 0x01,
            MessageType::CancelOrder => 0x02,
            MessageType::ModifyOrder => 0x03,
            MessageType::ExecutionReport => 0x10,
            MessageType::OrderAck => 0x11,
            MessageType::OrderReject => 0x12,
            MessageType::CancelAck => 0x13,
            MessageType::Trade => 0x20,
            MessageType::Quote => 0x21,
            MessageType::BookUpdate => 0x22,
            MessageType::Heartbeat => 0xFE,
            MessageType::SystemError => 0xFF,
        }
    }

    /// The type that a wire byte stands for, if any.
    pub open spec fn spec_from_code(value: u8) -> Option<MessageType> {
        if value == 0x01 {
            Some(MessageType::NewOrder)
        } else if value == 0x02 {
            Some(MessageType::CancelOrder)
        } else if value == 0x03 {
            Some(MessageType::ModifyOrder)
        } else if value == 0x10 {
            Some(MessageType::ExecutionReport)
        } else if value == 0x11 {
            Some(MessageType::OrderAck)
        } else if value == 0x12 {
            Some(MessageType::OrderReject)
        } else if value == 0x13 {
            Some(MessageType::CancelAck)
        } else if value == 0x20 {
            Some(MessageType::Trade)
        } else if value == 0x21 {
            Some(MessageType::Quote)
        } else if value == 0x22 {
            Some(MessageType::BookUpdate)
        } else if value == 0xFE {
            Some(MessageType::Heartbeat)
        } else if value == 0xFF {
            Some(MessageType::SystemError)
        } else {
            None
        }
    }

    /// The byte that stands for this type on the wire.
    #[verifier::when_used_as_spec(spec_code)]
    pub fn code(self) -> (code: u8)
        ensures
            code == self.spec_code(),
    {
        match self {
            MessageType::NewOrder => 0x01,
            MessageType::CancelOrder => 0x02,
            MessageType::ModifyOrder => 0x03,
            MessageType::ExecutionReport => 0x10,
            MessageType::OrderAck => 0x11,
            MessageType::OrderReject => 0x12,
            MessageType::CancelAck => 0x13,
            MessageType::Trade => 0x20,
            MessageType::Quote => 0x21,
            MessageType::BookUpdate => 0x22,
            MessageType::Heartbeat => 0xFE,
            MessageType::SystemError => 0xFF,
        }
    }

    /// Read a message type from its wire byte.
    pub fn try_from(value: u8) -> (message_type: Result<MessageType, ()>)
        ensures
            match MessageType::spec_from_code(value) {
                Some(t) => message_type == Ok::<MessageType, ()>(t),
                None => message_type is Err,
            },
    {
        match value {
            0x01 => Ok(MessageType::NewOrder),
            0x02 => Ok(MessageType::CancelOrder),
            0x03 => Ok(MessageType::ModifyOrder),
            0x10 => Ok(MessageType::ExecutionReport),
            0x11 => Ok(MessageType::OrderAck),
            0x12 => Ok(MessageType::OrderReject),
            0x13 => Ok(MessageType::CancelAck),
            0x20 => Ok(MessageType::Trade),
            0x21 => Ok(MessageType::Quote),
            0x22 => Ok(MessageType::BookUpdate),
            0xFE => Ok(MessageType::Heartbeat),
            0xFF => Ok(MessageType::SystemError),
            _ => Err(()),
        }
    }

    /// Reading back the wire byte of a type gives the type.
    pub proof fn lemma_code_round_trip(self)
        ensures
            MessageType::spec_from_code(self.spec_code()) == Some(self),
    {
    }

    /// The size that the type fixes for its messages, for the types that
    /// fix one.
    pub open spec fn fixed_size(self) -> Option<usize> {
        match self {
            MessageType::NewOrder => Some(NEW_ORDER_SIZE),
            MessageType::CancelOrder => Some(CANCEL_ORDER_SIZE),
            MessageType::ExecutionReport => Some(EXECUTION_REPORT_SIZE),
            MessageType::Quote => Some(QUOTE_SIZE),
            MessageType::Trade => Some(TRADE_SIZE),
            _ => None,
        }
    }
}

/// Fixed-size message header (8 bytes).
#[derive(Clone, Copy, Debug)]
pub struct MessageHeader {
    /// Message type.
    pub msg_type: u8,
    /// Message flags (reserved).
    pub flags: u8,
    /// Payload length (excluding header).
    pub length: u16,
    /// Sequence number.
    pub sequence: u32,
}

impl MessageHeader {
    /// The header on the wire.
    pub open spec fn encode(self) -> Seq<u8> {
        seq![self.msg_type, self.flags] + spec_u16_to_le_bytes(self.length)
            + spec_u32_to_le_bytes(self.sequence)
    }

    /// The header that the first eight of `bytes` stand for.
    pub open spec fn decode(bytes: Seq<u8>) -> MessageHeader {
        MessageHeader {
            msg_type: bytes[0],
            flags: bytes[1],
            length: spec_u16_from_le_bytes(bytes.subrange(2, 4)),
            sequence: spec_u32_from_le_bytes(bytes.subrange(4, 8)),
        }
    }

    /// Decoding undoes encoding, and encoding undoes decoding.
    pub proof fn lemma_decode(self, bytes: Seq<u8>)
        ensures
            MessageHeader::decode(self.encode()) == self,
            bytes.len() >= HEADER_SIZE ==> MessageHeader::decode(bytes).encode()
                == bytes.take(HEADER_SIZE as int),
    {
        lemma_auto_spec_u16_to_from_le_bytes();
        lemma_auto_spec_u32_to_from_le_bytes();
        let a = self.encode();
        assert(a.subrange(2, 4) =~= spec_u16_to_le_bytes(self.length));
        assert(a.subrange(4, 8) =~= spec_u32_to_le_bytes(self.sequence));
        if bytes.len() >= HEADER_SIZE {
            assert(MessageHeader::decode(bytes).encode() =~= bytes.take(HEADER_SIZE as int));
        }
    }

    /// Create a new header.
    pub fn new(msg_type: u8, length: u16, sequence: u32) -> (header: Self)
        ensures
            header == (MessageHeader { msg_type, flags: 0, length, sequence }),
    {
        MessageHeader { msg_type, flags: 0, length, sequence }
    }

    /// Get the total message size (header plus payload).
    pub fn total_size(&self) -> (size: usize)
        ensures
            size == HEADER_SIZE + self.length,
    {
        HEADER_SIZE + self.length as usize
    }

    /// Write the header to the first eight bytes of `buffer`.
    pub fn write_to(&self, buffer: &mut [u8]) -> (size: usize)
        requires
            old(buffer)@.len() >= HEADER_SIZE,
        ensures
            size == HEADER_SIZE,
            final(buffer)@ == self.encode() + old(buffer)@.skip(HEADER_SIZE as int),
            final(buffer)@.len() == old(buffer)@.len(),
    {
        proof {
            self.lemma_encode(*self);
        }
        buffer[0] = self.msg_type;
        buffer[1] = self.flags;
        put(buffer, 2, u16_to_le_bytes(self.length).as_slice());
        put(buffer, 4, u32_to_le_bytes(self.sequence).as_slice());
        assert(buffer@ =~= self.encode() + old(buffer)@.skip(HEADER_SIZE as int));
        HEADER_SIZE
    }

    /// The wire form is eight bytes long and determines the header.
    pub proof fn lemma_encode(self, other: MessageHeader)
        ensures
            self.encode().len() == HEADER_SIZE,
            self.encode() == other.encode() ==> self == other,
    {
        lemma_auto_spec_u16_to_from_le_bytes();
        lemma_auto_spec_u32_to_from_le_bytes();
        if self.encode() == other.encode() {
            let a = self.encode();
            let b = other.encode();
            assert(a[0] == self.msg_type && a[1] == self.flags);
            assert(b[0] == other.msg_type && b[1] == other.flags);
            assert(a.subrange(2, 4) =~= spec_u16_to_le_bytes(self.length));
            assert(b.subrange(2, 4) =~= spec_u16_to_le_bytes(other.length));
            assert(a.subrange(4, 8) =~= spec_u32_to_le_bytes(self.sequence));
            assert(b.subrange(4, 8) =~= spec_u32_to_le_bytes(other.sequence));
        }
    }
}

impl Default for MessageHeader {
    fn default() -> (header: Self)
        ensures
            header == (MessageHeader { msg_type: 0, flags: 0, length: 0, sequence: 0 }),
    {
        MessageHeader { msg_type: 0, flags: 0, length: 0, sequence: 0 }
    }
}

/// New-order message (64 bytes).
#[derive(Clone, Copy, Debug)]
pub struct NewOrderMessage {
    pub header: MessageHeader,
    pub order_id: u64,
    pub symbol_id: u32,
    /// 0 = buy, 1 = sell.
    pub side: u8,
    /// 0 = limit, 1 = immediate-or-cancel, 2 = fill-or-kill, 3 = post-only.
    pub order_type: u8,
    pub _padding1: u16,
    pub price: u64,
    pub quantity: u64,
    /// Client reference.
    pub client_order_id: [u8; 20],
    pub _reserved: [u8; 4],
}

impl NewOrderMessage {
    /// The message on the wire.
    pub open spec fn encode(self) -> Seq<u8> {
        self.header.encode() + spec_u64_to_le_bytes(self.order_id)
            + spec_u32_to_le_bytes(self.symbol_id) + seq![self.side, self.order_type]
            + spec_u16_to_le_bytes(self._padding1)
            + spec_u64_to_le_bytes(self.price) + spec_u64_to_le_bytes(self.quantity)
            + self.client_order_id@ + self._reserved@
    }

    /// Create a new-order message.
    pub fn new(
        sequence: u32,
        order_id: u64,
        symbol_id: u32,
        side: u8,
        order_type: u8,
        price: u64,
        quantity: u64,
    ) -> (message: Self)
        ensures
            message.header == (MessageHeader {
                msg_type: MessageType::NewOrder.spec_code(),
                flags: 0,
                length: (NEW_ORDER_SIZE - HEADER_SIZE) as u16,
                sequence,
            }),
            message.order_id == order_id,
            message.symbol_id == symbol_id,
            message.side == side,
            message.order_type == order_type,
            message._padding1 == 0,
            message.price == price,
            message.quantity == quantity,
            message.client_order_id@ == Seq::new(20, |i: int| 0u8),
            message._reserved@ == Seq::new(4, |i: int| 0u8),
    {
        NewOrderMessage {
            header: MessageHeader::new(
                MessageType::NewOrder.code(),
                (NEW_ORDER_SIZE - HEADER_SIZE) as u16,
                sequence,
            ),
            order_id,
            symbol_id,
            side,
            order_type,
            _padding1: 0,
            price,
            quantity,
            client_order_id: [0u8; 20],
            _reserved: [0u8; 4],
        }
    }

    /// Write the message to the first 64 bytes of `buffer`.
    pub fn write_to(&self, buffer: &mut [u8]) -> (size: usize)
        requires
            old(buffer)@.len() >= NEW_ORDER_SIZE,
        ensures
            size == NEW_ORDER_SIZE,
            final(buffer)@ == self.encode() + old(buffer)@.skip(NEW_ORDER_SIZE as int),
    {
        proof {
            self.lemma_encode(*self);
        }
        self.header.write_to(buffer);
        put(buffer, 8, u64_to_le_bytes(self.order_id).as_slice());
        put(buffer, 16, u32_to_le_bytes(self.symbol_id).as_slice());
        buffer[20] = self.side;
        buffer[21] = self.order_type;
        put(buffer, 22, u16_to_le_bytes(self._padding1).as_slice());
        put(buffer, 24, u64_to_le_bytes(self.price).as_slice());
        put(buffer, 32, u64_to_le_bytes(self.quantity).as_slice());
        put(buffer, 40, self.client_order_id.as_slice());
        put(buffer, 60, self._reserved.as_slice());
        assert(buffer@ =~= self.encode() + old(buffer)@.skip(NEW_ORDER_SIZE as int));
        NEW_ORDER_SIZE
    }

    /// The wire form is 64 bytes long and determines the message.
    pub proof fn lemma_encode(self, other: NewOrderMessage)
        ensures
            self.encode().len() == NEW_ORDER_SIZE,
            self.encode() == other.encode() ==> self == other,
    {
        lemma_auto_spec_u16_to_from_le_bytes();
        lemma_auto_spec_u32_to_from_le_bytes();
        lemma_auto_spec_u64_to_from_le_bytes();
        self.header.lemma_encode(other.header);
        other.header.lemma_encode(self.header);
        if self.encode() == other.encode() {
            let a = self.encode();
            let b = other.encode();
            assert(a.subrange(0, 8) =~= self.header.encode());
            assert(b.subrange(0, 8) =~= other.header.encode());
            assert(a.subrange(8, 16) =~= spec_u64_to_le_bytes(self.order_id));
            assert(b.subrange(8, 16) =~= spec_u64_to_le_bytes(other.order_id));
            assert(a.subrange(16, 20) =~= spec_u32_to_le_bytes(self.symbol_id));
            assert(b.subrange(16, 20) =~= spec_u32_to_le_bytes(other.symbol_id));
            assert(a[20] == self.side && a[21] == self.order_type);
            assert(b[20] == other.side && b[21] == other.order_type);
            assert(a.subrange(22, 24) =~= spec_u16_to_le_bytes(self._padding1));
            assert(b.subrange(22, 24) =~= spec_u16_to_le_bytes(other._padding1));
            assert(a.subrange(24, 32) =~= spec_u64_to_le_bytes(self.price));
            assert(b.subrange(24, 32) =~= spec_u64_to_le_bytes(other.price));
            assert(a.subrange(32, 40) =~= spec_u64_to_le_bytes(self.quantity));
            assert(b.subrange(32, 40) =~= spec_u64_to_le_bytes(other.quantity));
            assert(a.subrange(40, 60) =~= self.client_order_id@);
            assert(b.subrange(40, 60) =~= other.client_order_id@);
            assert(a.subrange(60, 64) =~= self._reserved@);
            assert(b.subrange(60, 64) =~= other._reserved@);
            assert(self.client_order_id =~= other.client_order_id);
            assert(self._reserved =~= other._reserved);
        }
    }
}

impl Default for NewOrderMessage {
    fn default() -> (message: Self)
        ensures
            message.header == (MessageHeader { msg_type: 0, flags: 0, length: 0, sequence: 0 }),
            message.order_id == 0,
            message.symbol_id == 0,
            message.side == 0,
            message.order_type == 0,
            message._padding1 == 0,
            message.price == 0,
            message.quantity == 0,
            message.client_order_id@ == Seq::new(20, |i: int| 0u8),
            message._reserved@ == Seq::new(4, |i: int| 0u8),
    {
        NewOrderMessage {
            header: MessageHeader::default(),
            order_id: 0,
            symbol_id: 0,
            side: 0,
            order_type: 0,
            _padding1: 0,
            price: 0,
            quantity: 0,
            client_order_id: [0u8; 20],
            _reserved: [0u8; 4],
        }
    }
}

/// Cancel-order message (32 bytes).
#[derive(Clone, Copy, Debug)]
pub struct CancelOrderMessage {
    pub header: MessageHeader,
    pub order_id: u64,
    pub symbol_id: u32,
    pub _reserved: [u8; 12],
}

impl CancelOrderMessage {
    /// The message on the wire.
    pub open spec fn encode(self) -> Seq<u8> {
        self.header.encode() + spec_u64_to_le_bytes(self.order_id)
            + spec_u32_to_le_bytes(self.symbol_id) + self._reserved@
    }

    /// Create a cancel-order message.
    pub fn new(sequence: u32, order_id: u64, symbol_id: u32) -> (message: Self)
        ensures
            message.header == (MessageHeader {
                msg_type: MessageType::CancelOrder.spec_code(),
                flags: 0,
                length: (CANCEL_ORDER_SIZE - HEADER_SIZE) as u16,
                sequence,
            }),
            message.order_id == order_id,
            message.symbol_id == symbol_id,
            message._reserved@ == Seq::new(12, |i: int| 0u8),
    {
        CancelOrderMessage {
            header: MessageHeader::new(
                MessageType::CancelOrder.code(),
                (CANCEL_ORDER_SIZE - HEADER_SIZE) as u16,
                sequence,
            ),
            order_id,
            symbol_id,
            _reserved: [0u8; 12],
        }
    }

    /// Write the message to the first 32 bytes of `buffer`.
    pub fn write_to(&self, buffer: &mut [u8]) -> (size: usize)
        requires
            old(buffer)@.len() >= CANCEL_ORDER_SIZE,
        ensures
            size == CANCEL_ORDER_SIZE,
            final(buffer)@ == self.encode() + old(buffer)@.skip(CANCEL_ORDER_SIZE as int),
    {
        proof {
            self.lemma_encode(*self);
        }
        self.header.write_to(buffer);
        put(buffer, 8, u64_to_le_bytes(self.order_id).as_slice());
        put(buffer, 16, u32_to_le_bytes(self.symbol_id).as_slice());
        put(buffer, 20, self._reserved.as_slice());
        assert(buffer@ =~= self.encode() + old(buffer)@.skip(CANCEL_ORDER_SIZE as int));
        CANCEL_ORDER_SIZE
    }

    /// The wire form is 32 bytes long and determines the message.
    pub proof fn lemma_encode(self, other: CancelOrderMessage)
        ensures
            self.encode().len() == CANCEL_ORDER_SIZE,
            self.encode() == other.encode() ==> self == other,
    {
        lemma_auto_spec_u32_to_from_le_bytes();
        lemma_auto_spec_u64_to_from_le_bytes();
        self.header.lemma_encode(other.header);
        other.header.lemma_encode(self.header);
        if self.encode() == other.encode() {
            let a = self.encode();
            let b = other.encode();
            assert(a.subrange(0, 8) =~= self.header.encode());
            assert(b.subrange(0, 8) =~= other.header.encode());
            assert(a.subrange(8, 16) =~= spec_u64_to_le_bytes(self.order_id));
            assert(b.subrange(8, 16) =~= spec_u64_to_le_bytes(other.order_id));
            assert(a.subrange(16, 20) =~= spec_u32_to_le_bytes(self.symbol_id));
            assert(b.subrange(16, 20) =~= spec_u32_to_le_bytes(other.symbol_id));
            assert(a.subrange(20, 32) =~= self._reserved@);
            assert(b.subrange(20, 32) =~= other._reserved@);
            assert(self._reserved =~= other._reserved);
        }
    }
}

impl Default for CancelOrderMessage {
    fn default() -> (message: Self)
        ensures
            message.header == (MessageHeader { msg_type: 0, flags: 0, length: 0, sequence: 0 }),
            message.order_id == 0,
            message.symbol_id == 0,
            message._reserved@ == Seq::new(12, |i: int| 0u8),
    {
        CancelOrderMessage {
            header: MessageHeader::default(),
            order_id: 0,
            symbol_id: 0,
            _reserved: [0u8; 12],
        }
    }
}

/// Execution type for reports.
#[derive(Clone, Copy, Debug, PartialEq, Eq, Structural)]
pub enum ExecType {
    New,
    Fill,
    PartialFill,
    Canceled,
    Rejected,
}

impl ExecType {
    /// The byte that stands for this execution type on the wire.
    pub open spec fn spec_code(self) -> u8 {
        match self {
            ExecType::New => 0,
            ExecType::Fill => 1,
            ExecType::PartialFill => 2,
            ExecType::Canceled => 3,
            ExecType::Rejected => 4,
        }
    }

    /// The byte that stands for this execution type on the wire.
    #[verifier::when_used_as_spec(spec_code)]
    pub fn code(self) -> (code: u8)
        ensures
            code == self.spec_code(),
    {
        match self {
            ExecType::New => 0,
            ExecType::Fill => 1,
            ExecType::PartialFill => 2,
            ExecType::Canceled => 3,
            ExecType::Rejected => 4,
        }
    }
}

/// Execution report (outbound, 64 bytes).
#[derive(Clone, Copy, Debug)]
pub struct ExecutionReport {
    pub header: MessageHeader,
    pub order_id: u64,
    pub exec_id: u64,
    pub symbol_id: u32,
    pub side: u8,
    pub exec_type: u8,
    pub _padding1: u16,
    pub exec_price: u64,
    pub exec_qty: u64,
    /// Remaining quantity.
    pub leaves_qty: u64,
    pub timestamp: u64,
}

impl ExecutionReport {
    /// The report on the wire.
    pub open spec fn encode(self) -> Seq<u8> {
        self.header.encode() + spec_u64_to_le_bytes(self.order_id)
            + spec_u64_to_le_bytes(self.exec_id) + spec_u32_to_le_bytes(self.symbol_id)
            + seq![self.side, self.exec_type]
            + spec_u16_to_le_bytes(self._padding1) + spec_u64_to_le_bytes(self.exec_price)
            + spec_u64_to_le_bytes(self.exec_qty) + spec_u64_to_le_bytes(self.leaves_qty)
            + spec_u64_to_le_bytes(self.timestamp)
    }

    /// The report of a fill: a `Fill` if nothing is left of the order, a
    /// `PartialFill` otherwise.
    pub open spec fn spec_new_fill(
        sequence: u32,
        order_id: u64,
        exec_id: u64,
        symbol_id: u32,
        side: u8,
        price: u64,
        qty: u64,
        leaves_qty: u64,
        timestamp: u64,
    ) -> ExecutionReport {
        ExecutionReport {
            header: MessageHeader {
                msg_type: MessageType::ExecutionReport.spec_code(),
                flags: 0,
                length: (EXECUTION_REPORT_SIZE - HEADER_SIZE) as u16,
                sequence,
            },
            order_id,
            exec_id,
            symbol_id,
            side,
            exec_type: if leaves_qty == 0 {
                ExecType::Fill.spec_code()
            } else {
                ExecType::PartialFill.spec_code()
            },
            _padding1: 0,
            exec_price: price,
            exec_qty: qty,
            leaves_qty,
            timestamp,
        }
    }

    /// Create the report of a fill.
    pub fn new_fill(
        sequence: u32,
        order_id: u64,
        exec_id: u64,
        symbol_id: u32,
        side: u8,
        price: u64,
        qty: u64,
        leaves_qty: u64,
        timestamp: u64,
    ) -> (report: Self)
        ensures
            report == ExecutionReport::spec_new_fill(
                sequence,
                order_id,
                exec_id,
                symbol_id,
                side,
                price,
                qty,
                leaves_qty,
                timestamp,
            ),
    {
        let exec_type = if leaves_qty == 0 {
            ExecType::Fill.code()
        } else {
            ExecType::PartialFill.code()
        };
        ExecutionReport {
            header: MessageHeader::new(
                MessageType::ExecutionReport.code(),
                (EXECUTION_REPORT_SIZE - HEADER_SIZE) as u16,
                sequence,
            ),
            order_id,
            exec_id,
            symbol_id,
            side,
            exec_type,
            _padding1: 0,
            exec_price: price,
            exec_qty: qty,
            leaves_qty,
            timestamp,
        }
    }

    /// Write the report to the first 64 bytes of `buffer`.
    pub fn write_to(&self, buffer: &mut [u8]) -> (size: usize)
        requires
            old(buffer)@.len() >= EXECUTION_REPORT_SIZE,
        ensures
            size == EXECUTION_REPORT_SIZE,
            final(buffer)@ == self.encode() + old(buffer)@.skip(EXECUTION_REPORT_SIZE as int),
    {
        proof {
            self.lemma_encode(*self);
        }
        self.header.write_to(buffer);
        put(buffer, 8, u64_to_le_bytes(self.order_id).as_slice());
        put(buffer, 16, u64_to_le_bytes(self.exec_id).as_slice());
        put(buffer, 24, u32_to_le_bytes(self.symbol_id).as_slice());
        buffer[28] = self.side;
        buffer[29] = self.exec_type;
        put(buffer, 30, u16_to_le_bytes(self._padding1).as_slice());
        put(buffer, 32, u64_to_le_bytes(self.exec_price).as_slice());
        put(buffer, 40, u64_to_le_bytes(self.exec_qty).as_slice());
        put(buffer, 48, u64_to_le_bytes(self.leaves_qty).as_slice());
        put(buffer, 56, u64_to_le_bytes(self.timestamp).as_slice());
        assert(buffer@ =~= self.encode() + old(buffer)@.skip(EXECUTION_REPORT_SIZE as int));
        EXECUTION_REPORT_SIZE
    }

    /// The wire form is 64 bytes long and determines the report.
    pub proof fn lemma_encode(self, other: ExecutionReport)
        ensures
            self.encode().len() == EXECUTION_REPORT_SIZE,
            self.encode() == other.encode() ==> self == other,
    {
        lemma_auto_spec_u16_to_from_le_bytes();
        lemma_auto_spec_u32_to_from_le_bytes();
        lemma_auto_spec_u64_to_from_le_bytes();
        self.header.lemma_encode(other.header);
        other.header.lemma_encode(self.header);
        if self.encode() == other.encode() {
            let a = self.encode();
            let b = other.encode();
            assert(a.subrange(0, 8) =~= self.header.encode());
            assert(b.subrange(0, 8) =~= other.header.encode());
            assert(a.subrange(8, 16) =~= spec_u64_to_le_bytes(self.order_id));
            assert(b.subrange(8, 16) =~= spec_u64_to_le_bytes(other.order_id));
            assert(a.subrange(16, 24) =~= spec_u64_to_le_bytes(self.exec_id));
            assert(b.subrange(16, 24) =~= spec_u64_to_le_bytes(other.exec_id));
            assert(a.subrange(24, 28) =~= spec_u32_to_le_bytes(self.symbol_id));
            assert(b.subrange(24, 28) =~= spec_u32_to_le_bytes(other.symbol_id));
            assert(a[28] == self.side && a[29] == self.exec_type);
            assert(b[28] == other.side && b[29] == other.exec_type);
            assert(a.subrange(30, 32) =~= spec_u16_to_le_bytes(self._padding1));
            assert(b.subrange(30, 32) =~= spec_u16_to_le_bytes(other._padding1));
            assert(a.subrange(32, 40) =~= spec_u64_to_le_bytes(self.exec_price));
            assert(b.subrange(32, 40) =~= spec_u64_to_le_bytes(other.exec_price));
            assert(a.subrange(40, 48) =~= spec_u64_to_le_bytes(self.exec_qty));
            assert(b.subrange(40, 48) =~= spec_u64_to_le_bytes(other.exec_qty));
            assert(a.subrange(48, 56) =~= spec_u64_to_le_bytes(self.leaves_qty));
            assert(b.subrange(48, 56) =~= spec_u64_to_le_bytes(other.leaves_qty));
            assert(a.subrange(56, 64) =~= spec_u64_to_le_bytes(self.timestamp));
            assert(b.subrange(56, 64) =~= spec_u64_to_le_bytes(other.timestamp));
        }
    }
}

impl Default for ExecutionReport {
    fn default() -> (report: Self)
        ensures
            report.header == (MessageHeader { msg_type: 0, flags: 0, length: 0, sequence: 0 }),
            report.order_id == 0,
            report.exec_id == 0,
            report.symbol_id == 0,
            report.side == 0,
            report.exec_type == 0,
            report._padding1 == 0,
            report.exec_price == 0,
            report.exec_qty == 0,
            report.leaves_qty == 0,
            report.timestamp == 0,
    {
        ExecutionReport {
            header: MessageHeader::default(),
            order_id: 0,
            exec_id: 0,
            symbol_id: 0,
            side: 0,
            exec_type: 0,
            _padding1: 0,
            exec_price: 0,
            exec_qty: 0,
            leaves_qty: 0,
            timestamp: 0,
        }
    }
}

/// Quote message (32 bytes).
#[derive(Clone, Copy, Debug)]
pub struct QuoteMessage {
    pub header: MessageHeader,
    pub symbol_id: u32,
    pub _padding: u32,
    pub bid_price: u64,
    pub ask_price: u64,
}

impl QuoteMessage {
    /// The message on the wire.
    pub open spec fn encode(self) -> Seq<u8> {
        self.header.encode() + spec_u32_to_le_bytes(self.symbol_id)
            + spec_u32_to_le_bytes(self._padding) + spec_u64_to_le_bytes(self.bid_price)
            + spec_u64_to_le_bytes(self.ask_price)
    }

    /// The quote message with the given sequence number and prices.
    pub open spec fn spec_new(sequence: u32, symbol_id: u32, bid_price: u64, ask_price: u64)
        -> QuoteMessage {
        QuoteMessage {
            header: MessageHeader {
                msg_type: MessageType::Quote.spec_code(),
                flags: 0,
                length: (QUOTE_SIZE - HEADER_SIZE) as u16,
                sequence,
            },
            symbol_id,
            _padding: 0,
            bid_price,
            ask_price,
        }
    }

    /// Write the message to the first 32 bytes of `buffer`.
    pub fn write_to(&self, buffer: &mut [u8]) -> (size: usize)
        requires
            old(buffer)@.len() >= QUOTE_SIZE,
        ensures
            size == QUOTE_SIZE,
            final(buffer)@ == self.encode() + old(buffer)@.skip(QUOTE_SIZE as int),
    {
        proof {
            self.lemma_encode(*self);
        }
        self.header.write_to(buffer);
        put(buffer, 8, u32_to_le_bytes(self.symbol_id).as_slice());
        put(buffer, 12, u32_to_le_bytes(self._padding).as_slice());
        put(buffer, 16, u64_to_le_bytes(self.bid_price).as_slice());
        put(buffer, 24, u64_to_le_bytes(self.ask_price).as_slice());
        assert(buffer@ =~= self.encode() + old(buffer)@.skip(QUOTE_SIZE as int));
        QUOTE_SIZE
    }

    /// The wire form is 32 bytes long and determines the message.
    pub proof fn lemma_encode(self, other: QuoteMessage)
        ensures
            self.encode().len() == QUOTE_SIZE,
            self.encode() == other.encode() ==> self == other,
    {
        lemma_auto_spec_u32_to_from_le_bytes();
        lemma_auto_spec_u64_to_from_le_bytes();
        self.header.lemma_encode(other.header);
        other.header.lemma_encode(self.header);
        if self.encode() == other.encode() {
            let a = self.encode();
            let b = other.encode();
            assert(a.subrange(0, 8) =~= self.header.encode());
            assert(b.subrange(0, 8) =~= other.header.encode());
            assert(a.subrange(8, 12) =~= spec_u32_to_le_bytes(self.symbol_id));
            assert(b.subrange(8, 12) =~= spec_u32_to_le_bytes(other.symbol_id));
            assert(a.subrange(12, 16) =~= spec_u32_to_le_bytes(self._padding));
            assert(b.subrange(12, 16) =~= spec_u32_to_le_bytes(other._padding));
            assert(a.subrange(16, 24) =~= spec_u64_to_le_bytes(self.bid_price));
            assert(b.subrange(16, 24) =~= spec_u64_to_le_bytes(other.bid_price));
            assert(a.subrange(24, 32) =~= spec_u64_to_le_bytes(self.ask_price));
            assert(b.subrange(24, 32) =~= spec_u64_to_le_bytes(other.ask_price));
        }
    }
}

impl Default for QuoteMessage {
    fn default() -> (message: Self)
        ensures
            message.header == (MessageHeader { msg_type: 0, flags: 0, length: 0, sequence: 0 }),
            message.symbol_id == 0,
            message._padding == 0,
            message.bid_price == 0,
            message.ask_price == 0,
    {
        QuoteMessage {
            header: MessageHeader::default(),
            symbol_id: 0,
            _padding: 0,
            bid_price: 0,
            ask_price: 0,
        }
    }
}

/// Trade message (48 bytes).
#[derive(Clone, Copy, Debug)]
pub struct TradeMessage {
    pub header: MessageHeader,
    pub symbol_id: u32,
    /// Aggressor side.
    pub side: u8,
    pub _padding: [u8; 3],
    pub price: u64,
    pub quantity: u64,
    pub timestamp: u64,
    pub trade_id: u64,
}

impl TradeMessage {
    /// The message on the wire.
    pub open spec fn encode(self) -> Seq<u8> {
        self.header.encode() + spec_u32_to_le_bytes(self.symbol_id) + seq![self.side]
            + self._padding@ + spec_u64_to_le_bytes(self.price)
                + spec_u64_to_le_bytes(self.quantity) + spec_u64_to_le_bytes(self.timestamp)
                + spec_u64_to_le_bytes(self.trade_id)
    }

    /// The wire form of the trade message with the given sequence number
    /// and contents, and with zeroed padding.
    pub open spec fn wire_form(
        sequence: u32,
        symbol_id: u32,
        side: u8,
        price: u64,
        quantity: u64,
        timestamp: u64,
        trade_id: u64,
    ) -> Seq<u8> {
        (MessageHeader {
            msg_type: MessageType::Trade.spec_code(),
            flags: 0,
            length: (TRADE_SIZE - HEADER_SIZE) as u16,
            sequence,
        }).encode() + spec_u32_to_le_bytes(symbol_id) + seq![side, 0u8, 0u8, 0u8]
            + spec_u64_to_le_bytes(price) + spec_u64_to_le_bytes(quantity)
                + spec_u64_to_le_bytes(timestamp) + spec_u64_to_le_bytes(trade_id)
    }

    /// Write the message to the first 48 bytes of `buffer`.
    pub fn write_to(&self, buffer: &mut [u8]) -> (size: usize)
        requires
            old(buffer)@.len() >= TRADE_SIZE,
        ensures
            size == TRADE_SIZE,
            final(buffer)@ == self.encode() + old(buffer)@.skip(TRADE_SIZE as int),
    {
        proof {
            self.lemma_encode(*self);
        }
        self.header.write_to(buffer);
        put(buffer, 8, u32_to_le_bytes(self.symbol_id).as_slice());
        buffer[12] = self.side;
        put(buffer, 13, self._padding.as_slice());
        put(buffer, 16, u64_to_le_bytes(self.price).as_slice());
        put(buffer, 24, u64_to_le_bytes(self.quantity).as_slice());
        put(buffer, 32, u64_to_le_bytes(self.timestamp).as_slice());
        put(buffer, 40, u64_to_le_bytes(self.trade_id).as_slice());
        assert(buffer@ =~= self.encode() + old(buffer)@.skip(TRADE_SIZE as int));
        TRADE_SIZE
    }

    /// The wire form is 48 bytes long and determines the message.
    pub proof fn lemma_encode(self, other: TradeMessage)
        ensures
            self.encode().len() == TRADE_SIZE,
            self.encode() == other.encode() ==> self == other,
    {
        lemma_auto_spec_u32_to_from_le_bytes();
        lemma_auto_spec_u64_to_from_le_bytes();
        self.header.lemma_encode(other.header);
        other.header.lemma_encode(self.header);
        if self.encode() == other.encode() {
            let a = self.encode();
            let b = other.encode();
            assert(a.subrange(0, 8) =~= self.header.encode());
            assert(b.subrange(0, 8) =~= other.header.encode());
            assert(a.subrange(8, 12) =~= spec_u32_to_le_bytes(self.symbol_id));
            assert(b.subrange(8, 12) =~= spec_u32_to_le_bytes(other.symbol_id));
            assert(a[12] == self.side);
            assert(b[12] == other.side);
            assert(a.subrange(13, 16) =~= self._padding@);
            assert(b.subrange(13, 16) =~= other._padding@);
            assert(a.subrange(16, 24) =~= spec_u64_to_le_bytes(self.price));
            assert(b.subrange(16, 24) =~= spec_u64_to_le_bytes(other.price));
            assert(a.subrange(24, 32) =~= spec_u64_to_le_bytes(self.quantity));
            assert(b.subrange(24, 32) =~= spec_u64_to_le_bytes(other.quantity));
            assert(a.subrange(32, 40) =~= spec_u64_to_le_bytes(self.timestamp));
            assert(b.subrange(32, 40) =~= spec_u64_to_le_bytes(other.timestamp));
            assert(a.subrange(40, 48) =~= spec_u64_to_le_bytes(self.trade_id));
            assert(b.subrange(40, 48) =~= spec_u64_to_le_bytes(other.trade_id));
            assert(self._padding =~= other._padding);
        }
    }
}

impl Default for TradeMessage {
    fn default() -> (message: Self)
        ensures
            message.header == (MessageHeader { msg_type: 0, flags: 0, length: 0, sequence: 0 }),
            message.symbol_id == 0,
            message.side == 0,
            message._padding@ == Seq::new(3, |i: int| 0u8),
            message.price == 0,
            message.quantity == 0,
            message.timestamp == 0,
            message.trade_id == 0,
    {
        TradeMessage {
            header: MessageHeader::default(),
            symbol_id: 0,
            side: 0,
            _padding: [0u8; 3],
            price: 0,
            quantity: 0,
            timestamp: 0,
            trade_id: 0,
        }
    }
}

} // verus!
