//! Framing of the byte streams of a connection.
//!
//! Inbound bytes collect in a `ReadBuffer` until whole messages stand at its
//! front; these are taken off as commands. Outbound bytes wait in a
//! `WriteBuffer` until the connection has taken them.

use vstd::prelude::*;
use vstd::bytes::{
    lemma_auto_spec_u32_to_from_le_bytes,
    lemma_auto_spec_u64_to_from_le_bytes,
    spec_u32_from_le_bytes,
    spec_u32_to_le_bytes,
    spec_u64_from_le_bytes,
    spec_u64_to_le_bytes,
};
use vstd::slice::slice_subrange;
use crate::messages::{
    CancelOrderMessage,
    MessageHeader,
    MessageType,
    NewOrderMessage,
    CANCEL_ORDER_SIZE,
    HEADER_SIZE,
    NEW_ORDER_SIZE,
};
use crate::parser::MessageParser;

verus! {

/// Capacity of a read buffer in bytes.
pub const READ_BUFFER_SIZE: usize = 4096;

/// Capacity of a write buffer in bytes.
pub const WRITE_BUFFER_SIZE: usize = 4096;

/// A command for the engine, as carried by an inbound message.
#[derive(Clone, Copy, Debug, PartialEq, Eq, Structural)]
pub enum Command {
    /// New order received.
    NewOrder { order_id: u64, symbol_id: u32, side: u8, order_type: u8, price: u64, quantity: u64 },
    /// Cancel order received.
    CancelOrder { order_id: u64, symbol_id: u32 },
}

/// The command that the new-order message at the front of `bytes` carries.
pub open spec fn new_order_command(bytes: Seq<u8>) -> Command {
    Command::NewOrder {
        order_id: spec_u64_from_le_bytes(bytes.subrange(8, 16)),
        symbol_id: spec_u32_from_le_bytes(bytes.subrange(16, 20)),
        side: bytes[20],
        order_type: bytes[21],
        price: spec_u64_from_le_bytes(bytes.subrange(24, 32)),
        quantity: spec_u64_from_le_bytes(bytes.subrange(32, 40)),
    }
}

/// The command that the cancel-order message at the front of `bytes`
/// carries.
pub open spec fn cancel_command(bytes: Seq<u8>) -> Command {
    Command::CancelOrder {
        order_id: spec_u64_from_le_bytes(bytes.subrange(8, 16)),
        symbol_id: spec_u32_from_le_bytes(bytes.subrange(16, 20)),
    }
}

/// The command that a message of the given type at the front of `bytes`
/// carries; only new-order and cancel-order messages carry one.
pub open spec fn command_of(message_type: MessageType, bytes: Seq<u8>) -> Option<Command> {
    match message_type {
        MessageType::NewOrder => Some(new_order_command(bytes)),
        MessageType::CancelOrder => Some(cancel_command(bytes)),
        _ => None,
    }
}

/// The commands of the whole messages at the front of a byte stream, and the
/// number of bytes that these messages take up.
///
/// Reading stops where no whole header is left, where the message that
/// starts there is not yet complete, or where a header names no message
/// type.
pub struct Framed {
    pub commands: Seq<Command>,
    pub consumed: nat,
}

/// The length of the whole message at the front of `bytes`, and its type,
/// if there is one.
pub open spec fn front_message(bytes: Seq<u8>) -> Option<(MessageType, usize)> {
    if bytes.len() < HEADER_SIZE {
        None
    } else {
        match MessageParser::validated(MessageHeader::decode(bytes), bytes.len()) {
            Ok(found) => Some(found),
            Err(_) => None,
        }
    }
}

/// What is read off the front of `bytes`.
pub open spec fn frames(bytes: Seq<u8>) -> Framed
    decreases bytes.len(),
{
    match front_message(bytes) {
        None => Framed { commands: Seq::empty(), consumed: 0 },
        Some((message_type, len)) => if HEADER_SIZE <= len <= bytes.len() {
            let rest = frames(bytes.skip(len as int));
            Framed {
                commands: (match command_of(message_type, bytes) {
                    Some(command) => seq![command],
                    None => Seq::empty(),
                }) + rest.commands,
                consumed: (len + rest.consumed) as nat,
            }
        } else {
            Framed { commands: Seq::empty(), consumed: 0 }
        },
    }
}

/// A message found at the front is at least a header long and lies within
/// the bytes.
pub proof fn lemma_front_message(bytes: Seq<u8>)
    ensures
        front_message(bytes) matches Some((_, len)) ==> HEADER_SIZE <= len <= bytes.len(),
        frames(bytes).consumed <= bytes.len(),
    decreases bytes.len(),
{
    match front_message(bytes) {
        Some((message_type, len)) => {
            lemma_front_message(bytes.skip(len as int));
        },
        None => {},
    }
}

/// The command carried by a new-order message is made of the fields of the
/// message.
pub proof fn lemma_new_order_command(order: NewOrderMessage)
    ensures
        new_order_command(order.encode()) == (Command::NewOrder {
            order_id: order.order_id,
            symbol_id: order.symbol_id,
            side: order.side,
            order_type: order.order_type,
            price: order.price,
            quantity: order.quantity,
        }),
{
    lemma_auto_spec_u32_to_from_le_bytes();
    lemma_auto_spec_u64_to_from_le_bytes();
    order.lemma_encode(order);
    order.header.lemma_encode(order.header);
    let a = order.encode();
    assert(a.subrange(8, 16) =~= spec_u64_to_le_bytes(order.order_id));
    assert(a.subrange(16, 20) =~= spec_u32_to_le_bytes(order.symbol_id));
    assert(a[20] == order.side && a[21] == order.order_type);
    assert(a.subrange(24, 32) =~= spec_u64_to_le_bytes(order.price));
    assert(a.subrange(32, 40) =~= spec_u64_to_le_bytes(order.quantity));
}

/// The command carried by a cancel-order message is made of the fields of
/// the message.
pub proof fn lemma_cancel_command(cancel: CancelOrderMessage)
    ensures
        cancel_command(cancel.encode()) == (Command::CancelOrder {
            order_id: cancel.order_id,
            symbol_id: cancel.symbol_id,
        }),
{
    lemma_auto_spec_u32_to_from_le_bytes();
    lemma_auto_spec_u64_to_from_le_bytes();
    cancel.lemma_encode(cancel);
    cancel.header.lemma_encode(cancel.header);
    let b = cancel.encode();
    assert(b.subrange(8, 16) =~= spec_u64_to_le_bytes(cancel.order_id));
    assert(b.subrange(16, 20) =~= spec_u32_to_le_bytes(cancel.symbol_id));
}

/// Read the commands of the whole messages at the front of `buffer`.
///
/// Returns the commands in the order of their messages, and the number of
/// bytes that the messages take up.
pub fn parse_messages(buffer: &[u8]) -> (parsed: (Vec<Command>, usize))
    ensures
        parsed.0@ == frames(buffer@).commands,
        parsed.1 == frames(buffer@).consumed,
        parsed.1 <= buffer@.len(),
{
    let mut commands: Vec<Command> = Vec::new();
    let mut consumed: usize = 0;
    let len = buffer.len();
    assert(buffer@.skip(0) =~= buffer@);
    assert(commands@ + frames(buffer@).commands =~= frames(buffer@).commands);
    loop
        invariant
            len == buffer@.len(),
            consumed <= len,
            frames(buffer@).commands == commands@ + frames(buffer@.skip(consumed as int)).commands,
            frames(buffer@).consumed == consumed + frames(buffer@.skip(consumed as int)).consumed,
        ensures
            consumed <= len,
            frames(buffer@).commands == commands@,
            frames(buffer@).consumed == consumed,
        decreases len - consumed,
    {
        let rest = slice_subrange(buffer, consumed, len);
        assert(rest@ =~= buffer@.skip(consumed as int));
        proof {
            lemma_front_message(rest@);
        }
        if len - consumed < HEADER_SIZE {
            assert(commands@ + Seq::<Command>::empty() =~= commands@);
            break ;
        }
        let (message_type, message_len) = match MessageParser::validate_message(rest) {
            Ok(found) => found,
            Err(_) => {
                assert(commands@ + Seq::<Command>::empty() =~= commands@);
                break ;
            },
        };
        if message_len > len - consumed {
            assert(commands@ + Seq::<Command>::empty() =~= commands@);
            break ;
        }
        let ghost before = commands@;
        match message_type {
            MessageType::NewOrder => {
                match MessageParser::parse_new_order(rest) {
                    Ok(order) => {
                        proof {
                            lemma_new_order_command(order);
                            lemma_command_front(rest@, NEW_ORDER_SIZE as int);
                        }
                        commands.push(
                            Command::NewOrder {
                                order_id: order.order_id,
                                symbol_id: order.symbol_id,
                                side: order.side,
                                order_type: order.order_type,
                                price: order.price,
                                quantity: order.quantity,
                            },
                        );
                    },
                    Err(_) => {},
                }
            },
            MessageType::CancelOrder => {
                match MessageParser::parse_cancel(rest) {
                    Ok(cancel) => {
                        proof {
                            lemma_cancel_command(cancel);
                            lemma_command_front(rest@, CANCEL_ORDER_SIZE as int);
                        }
                        commands.push(
                            Command::CancelOrder {
                                order_id: cancel.order_id,
                                symbol_id: cancel.symbol_id,
                            },
                        );
                    },
                    Err(_) => {},
                }
            },
            _ => {},
        }
        proof {
            let tail = frames(rest@.skip(message_len as int));
            let head = match command_of(message_type, rest@) {
                Some(command) => seq![command],
                None => Seq::empty(),
            };
            assert(commands@ =~= before + head);
            assert(before + (head + tail.commands) =~= (before + head) + tail.commands);
            assert(rest@.skip(message_len as int) =~= buffer@.skip(consumed + message_len));
        }
        consumed = consumed + message_len;
    }
    (commands, consumed)
}

/// A command only depends on the bytes of its message.
proof fn lemma_command_front(bytes: Seq<u8>, len: int)
    requires
        20 <= len <= bytes.len(),
    ensures
        len >= 40 ==> new_order_command(bytes.take(len)) == new_order_command(bytes),
        cancel_command(bytes.take(len)) == cancel_command(bytes),
{
    let front = bytes.take(len);
    assert(front.subrange(8, 16) =~= bytes.subrange(8, 16));
    assert(front.subrange(16, 20) =~= bytes.subrange(16, 20));
    if len >= 40 {
        assert(front.subrange(24, 32) =~= bytes.subrange(24, 32));
        assert(front.subrange(32, 40) =~= bytes.subrange(32, 40));
    }
}

/// Inbound bytes of a connection that have not yet been read off as
/// messages.
pub struct ReadBuffer {
    data: [u8; READ_BUFFER_SIZE],
    read_pos: usize,
}

impl View for ReadBuffer {
    type V = Seq<u8>;

    /// The bytes held, oldest first.
    closed spec fn view(&self) -> Seq<u8> {
        self.data@.take(self.read_pos as int)
    }
}

impl ReadBuffer {
    /// The fill mark is within the buffer.
    pub closed spec fn wf(&self) -> bool {
        self.read_pos <= READ_BUFFER_SIZE
    }

    /// A buffer never holds more than `READ_BUFFER_SIZE` bytes.
    pub proof fn lemma_bounded(&self)
        requires
            self.wf(),
        ensures
            self@.len() <= READ_BUFFER_SIZE,
    {
    }

    /// Create an empty buffer.
    pub fn new() -> (buffer: Self)
        ensures
            buffer.wf(),
            buffer@ == Seq::<u8>::empty(),
    {
        let buffer = ReadBuffer { data: [0u8; READ_BUFFER_SIZE], read_pos: 0 };
        assert(buffer@ =~= Seq::<u8>::empty());
        buffer
    }

    /// Number of bytes held.
    pub fn len(&self) -> (len: usize)
        requires
            self.wf(),
        ensures
            len == self@.len(),
    {
        self.read_pos
    }

    /// Number of bytes that can still be taken in.
    pub fn free_space(&self) -> (free: usize)
        requires
            self.wf(),
        ensures
            free == READ_BUFFER_SIZE - self@.len(),
    {
        READ_BUFFER_SIZE - self.read_pos
    }

    /// Take in received bytes.
    ///
    /// Returns `false`, changing nothing, exactly if they do not fit.
    pub fn extend(&mut self, bytes: &[u8]) -> (taken: bool)
        requires
            old(self).wf(),
        ensures
            final(self).wf(),
            taken == (old(self)@.len() + bytes@.len() <= READ_BUFFER_SIZE),
            taken ==> final(self)@ == old(self)@ + bytes@,
            !taken ==> final(self)@ == old(self)@,
    {
        if bytes.len() > READ_BUFFER_SIZE - self.read_pos {
            return false;
        }
        let start = self.read_pos;
        let mut i: usize = 0;
        assert(self@ =~= old(self)@ + bytes@.take(0));
        while i < bytes.len()
            invariant
                i <= bytes@.len(),
                start == old(self).read_pos,
                start + bytes@.len() <= READ_BUFFER_SIZE,
                self.read_pos == start + i,
                self@ == old(self)@ + bytes@.take(i as int),
            decreases bytes@.len() - i,
        {
            let ghost prev = self@;
            self.data[start + i] = bytes[i];
            self.read_pos = self.read_pos + 1;
            proof {
                let next = old(self)@ + bytes@.take(i + 1);
                assert(old(self)@.len() == start);
                assert forall|k: int| 0 <= k < self@.len() implies self@[k] == next[k] by {
                    if k < start + i {
                        assert(self@[k] == prev[k]);
                    }
                }
                assert(self@ =~= next);
            }
            i = i + 1;
        }
        assert(bytes@.take(bytes@.len() as int) =~= bytes@);
        true
    }

    /// Read the commands of the whole messages at the front off the buffer.
    ///
    /// The bytes of these messages leave the buffer; what follows them
    /// moves to the front.
    pub fn drain_commands(&mut self) -> (commands: Vec<Command>)
        requires
            old(self).wf(),
        ensures
            final(self).wf(),
            commands@ == frames(old(self)@).commands,
            final(self)@ == old(self)@.skip(frames(old(self)@).consumed as int),
    {
        let (commands, consumed) = parse_messages(
            slice_subrange(self.data.as_slice(), 0, self.read_pos),
        );
        assert(self.data@.subrange(0, self.read_pos as int) =~= self@);
        if consumed > 0 {
            let left = self.read_pos - consumed;
            let mut i: usize = 0;
            while i < left
                invariant
                    i <= left,
                    left + consumed == old(self).read_pos,
                    old(self).read_pos <= READ_BUFFER_SIZE,
                    self.read_pos == old(self).read_pos,
                    forall|k: int| 0 <= k < i ==> self.data@[k] == old(self).data@[k + consumed],
                    forall|k: int|
                        i + consumed <= k < READ_BUFFER_SIZE ==> self.data@[k]
                            == old(self).data@[k],
                decreases left - i,
            {
                self.data[i] = self.data[i + consumed];
                i = i + 1;
            }
            self.read_pos = left;
        }
        assert(self@ =~= old(self)@.skip(consumed as int));
        commands
    }
}

/// Mathematical model of a write buffer.
pub struct WriteView {
    /// The bytes that the connection has not yet taken, oldest first.
    pub pending: Seq<u8>,
    /// The length of the part of the buffer that is in use: the pending
    /// bytes and, before them, the bytes already taken.
    pub used: nat,
}

/// Outbound bytes of a connection that the connection has not yet taken.
pub struct WriteBuffer {
    data: [u8; WRITE_BUFFER_SIZE],
    write_pos: usize,
    write_len: usize,
}

impl View for WriteBuffer {
    type V = WriteView;

    closed spec fn view(&self) -> WriteView {
        WriteView {
            pending: self.data@.subrange(self.write_pos as int, self.write_len as int),
            used: self.write_len as nat,
        }
    }
}

impl WriteBuffer {
    /// The marks are in order and within the buffer.
    pub closed spec fn wf(&self) -> bool {
        self.write_pos <= self.write_len <= WRITE_BUFFER_SIZE
    }

    /// The pending bytes lie within the part in use, which lies within the
    /// buffer.
    pub proof fn lemma_bounded(&self)
        requires
            self.wf(),
        ensures
            self@.pending.len() <= self@.used <= WRITE_BUFFER_SIZE,
    {
    }

    /// Create an empty buffer.
    pub fn new() -> (buffer: Self)
        ensures
            buffer.wf(),
            buffer@ == (WriteView { pending: Seq::empty(), used: 0 }),
    {
        let buffer = WriteBuffer { data: [0u8; WRITE_BUFFER_SIZE], write_pos: 0, write_len: 0 };
        assert(buffer@.pending =~= Seq::<u8>::empty());
        buffer
    }

    /// Queue data for writing.
    ///
    /// Returns `false`, changing nothing, exactly if the data does not fit
    /// behind the part of the buffer that is in use.
    pub fn queue_write(&mut self, data: &[u8]) -> (queued: bool)
        requires
            old(self).wf(),
        ensures
            final(self).wf(),
            queued == (old(self)@.used + data@.len() <= WRITE_BUFFER_SIZE),
            queued ==> final(self)@ == (WriteView {
                pending: old(self)@.pending + data@,
                used: old(self)@.used + data@.len(),
            }),
            !queued ==> final(self)@ == old(self)@,
    {
        let available = WRITE_BUFFER_SIZE - self.write_len;
        if data.len() > available {
            return false;
        }
        let start = self.write_len;
        let mut i: usize = 0;
        assert(self@.pending =~= old(self)@.pending + data@.take(0));
        while i < data.len()
            invariant
                i <= data@.len(),
                start == old(self).write_len,
                start + data@.len() <= WRITE_BUFFER_SIZE,
                self.write_pos == old(self).write_pos,
                self.write_pos <= start,
                self.write_len == start + i,
                self@.pending == old(self)@.pending + data@.take(i as int),
            decreases data@.len() - i,
        {
            let ghost prev = self@.pending;
            self.data[start + i] = data[i];
            self.write_len = self.write_len + 1;
            proof {
                let next = old(self)@.pending + data@.take(i + 1);
                assert(old(self)@.pending.len() == start - self.write_pos);
                assert forall|k: int| 0 <= k < self@.pending.len() implies self@.pending[k]
                    == next[k] by {
                    if k < start + i - self.write_pos {
                        assert(self@.pending[k] == prev[k]);
                    }
                }
                assert(self@.pending =~= next);
            }
            i = i + 1;
        }
        assert(data@.take(data@.len() as int) =~= data@);
        true
    }

    /// The bytes that the connection has not yet taken.
    pub fn pending(&self) -> (bytes: &[u8])
        requires
            self.wf(),
        ensures
            bytes@ == self@.pending,
    {
        slice_subrange(self.data.as_slice(), self.write_pos, self.write_len)
    }

    /// Record that the connection has taken the first `count` pending
    /// bytes. Once nothing is pending the whole buffer is free again.
    pub fn advance(&mut self, count: usize)
        requires
            old(self).wf(),
            count <= old(self)@.pending.len(),
        ensures
            final(self).wf(),
            final(self)@ == (WriteView {
                pending: old(self)@.pending.skip(count as int),
                used: if count == old(self)@.pending.len() {
                    0
                } else {
                    old(self)@.used
                },
            }),
    {
        self.write_pos = self.write_pos + count;
        if self.write_pos == self.write_len {
            self.write_pos = 0;
            self.write_len = 0;
        }
        assert(self@.pending =~= old(self)@.pending.skip(count as int));
    }
}

} // verus!
