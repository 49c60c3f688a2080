//! Single-producer single-consumer ring buffer.
//!
//! Two cursors count what has been published and what has been consumed;
//! the slot of a cursor is its low bits. Each role keeps a mirror of the
//! other role's cursor and looks at the cursor itself only when the mirror
//! says that the ring is full (for the producer) or empty (for the
//! consumer).
//!
//! The ring here is owned by one thread at a time: the two roles are
//! separate handles, and each operation is given the ring it works on.

use vstd::prelude::*;
use vstd::arithmetic::power2::pow2;
use vstd::bits::{low_bits_mask, lemma_u64_low_bits_mask_is_mod};

verus! {

/// Default buffer size (a power of two).
pub const DEFAULT_BUFFER_SIZE: usize = 1024 * 1024;

/// Whether `n` can be the capacity of a ring: a power of two.
pub open spec fn is_ring_capacity(n: nat) -> bool {
    exists|k: nat| k < usize::BITS && n == pow2(k)
}

/// Mathematical model of a ring.
pub struct RingView<T> {
    /// Number of values published so far.
    pub published: nat,
    /// Number of values consumed so far.
    pub consumed: nat,
    /// The values published and not yet consumed, oldest first.
    pub queue: Seq<T>,
    /// Whether the producer handle and the consumer handle have been handed
    /// out.
    pub split: bool,
}

impl<T> RingView<T> {
    /// The empty ring.
    pub open spec fn empty() -> RingView<T> {
        RingView { published: 0, consumed: 0, queue: Seq::empty(), split: false }
    }

    /// The ring after `value` has been published.
    pub open spec fn publish(self, value: T) -> RingView<T> {
        RingView { published: self.published + 1, queue: self.queue.push(value), ..self }
    }

    /// The ring after the oldest value has been consumed.
    pub open spec fn consume(self) -> RingView<T> {
        RingView { consumed: self.consumed + 1, queue: self.queue.skip(1), ..self }
    }

    /// The ring after the `count` oldest values have been consumed.
    pub open spec fn consume_many(self, count: nat) -> RingView<T> {
        RingView { consumed: self.consumed + count, queue: self.queue.skip(count as int), ..self }
    }

    /// The ring after `values` have been published in order.
    pub open spec fn publish_many(self, values: Seq<T>) -> RingView<T> {
        RingView { published: self.published + values.len(), queue: self.queue + values, ..self }
    }

    /// The cursor invariant: nothing is consumed before it is published,
    /// and the values in flight are those between the two cursors, at most
    /// `capacity` of them.
    pub open spec fn wf(self, capacity: nat) -> bool {
        &&& self.consumed <= self.published <= u64::MAX
        &&& self.published - self.consumed == self.queue.len()
        &&& self.queue.len() <= capacity
    }

    /// A value published into an empty ring is the value consumed next, and
    /// the ring is empty again afterwards.
    pub proof fn lemma_round_trip(self, value: T)
        requires
            self.queue.len() == 0,
        ensures
            self.publish(value).queue[0] == value,
            self.publish(value).consume().queue == Seq::<T>::empty(),
    {
    }

    /// Values leave in the order in which they were published: whatever is
    /// in flight, a newly published value is consumed after all of it.
    pub proof fn lemma_fifo(self, value: T)
        ensures
            self.publish(value).queue.len() == self.queue.len() + 1,
            self.publish(value).queue[self.queue.len() as int] == value,
            forall|i: int|
                0 <= i < self.queue.len() ==> self.publish(value).queue[i] == self.queue[i],
            self.queue.len() > 0 ==> self.publish(value).consume() == self.consume().publish(value),
    {
        if self.queue.len() > 0 {
            assert(self.queue.push(value).skip(1) =~= self.queue.skip(1).push(value));
        }
    }
}

/// Single-producer single-consumer ring buffer of `N` slots.
pub struct SpscRing<T: Copy, const N: usize> {
    /// Write cursor (advanced by the producer).
    write_cursor: u64,
    /// The producer's mirror of the read cursor.
    cached_read: u64,
    /// Read cursor (advanced by the consumer).
    read_cursor: u64,
    /// The consumer's mirror of the write cursor.
    cached_write: u64,
    /// The slots; a slot is `None` until it is first written.
    buffer: Vec<Option<T>>,
    /// Whether the two handles have been handed out.
    handles_out: bool,
}

/// The slot of the `i`-th value after cursor position `cursor` in a ring of
/// `capacity` slots.
pub open spec fn ring_slot(cursor: int, i: int, capacity: int) -> int {
    (cursor + i) % capacity
}

/// The slot of a cursor in a ring of `capacity` slots: the low bits of the
/// cursor, which are the cursor modulo the capacity.
pub fn cursor_slot(cursor: u64, capacity: usize) -> (slot: usize)
    requires
        is_ring_capacity(capacity as nat),
    ensures
        slot == cursor % (capacity as u64),
        slot < capacity,
{
    proof {
        let k = choose|k: nat| k < usize::BITS && capacity as nat == pow2(k);
        vstd::arithmetic::power2::lemma_pow2_pos(k);
        lemma_u64_low_bits_mask_is_mod(cursor, k);
        assert(low_bits_mask(k) == capacity - 1);
    }
    let mask = (capacity - 1) as u64;
    (cursor & mask) as usize
}

impl<T: Copy, const N: usize> View for SpscRing<T, N> {
    type V = RingView<T>;

    closed spec fn view(&self) -> RingView<T> {
        RingView {
            published: self.write_cursor as nat,
            consumed: self.read_cursor as nat,
            queue: Seq::new(
                (self.write_cursor - self.read_cursor) as nat,
                |i: int| self.buffer@[ring_slot(self.read_cursor as int, i, N as int)]->0,
            ),
            split: self.handles_out,
        }
    }
}

impl<T: Copy, const N: usize> SpscRing<T, N> {
    /// The mirrors lag behind the cursors they mirror, and every slot
    /// between the cursors holds a value.
    pub closed spec fn repr_ok(&self) -> bool {
        &&& is_ring_capacity(N as nat)
        &&& self.buffer@.len() == N
        &&& self.cached_read <= self.read_cursor <= self.cached_write <= self.write_cursor
        &&& self.write_cursor - self.cached_read <= N
        &&& forall|i: int|
            0 <= i < self.write_cursor - self.read_cursor ==> (#[trigger] self.buffer@[ring_slot(
                self.read_cursor as int,
                i,
                N as int,
            )]) is Some
    }

    /// The ring invariant.
    pub open spec fn wf(&self) -> bool {
        self.repr_ok() && self@.wf(N as nat)
    }

    /// Create a new, empty ring buffer. `N` must be a power of two.
    pub fn new() -> (ring: Self)
        requires
            is_ring_capacity(N as nat),
        ensures
            ring.wf(),
            ring@ == RingView::<T>::empty(),
    {
        let mut buffer: Vec<Option<T>> = Vec::with_capacity(N);
        let mut i: usize = 0;
        while i < N
            invariant
                i <= N,
                buffer@.len() == i,
            decreases N - i,
        {
            buffer.push(None);
            i = i + 1;
        }
        let ring = SpscRing {
            write_cursor: 0,
            cached_read: 0,
            read_cursor: 0,
            cached_write: 0,
            buffer,
            handles_out: false,
        };
        assert(ring@.queue =~= Seq::<T>::empty());
        ring
    }

    /// Get the buffer capacity.
    pub fn capacity(&self) -> (capacity: usize)
        ensures
            capacity == N,
    {
        N
    }

    /// Number of values published so far.
    pub fn published(&self) -> (count: u64)
        ensures
            count == self@.published,
    {
        self.write_cursor
    }

    /// Number of values consumed so far.
    pub fn consumed(&self) -> (count: u64)
        ensures
            count == self@.consumed,
    {
        self.read_cursor
    }

    /// Split into the producer handle and the consumer handle.
    ///
    /// A ring is split once: the ring records that its handles are out, and
    /// cannot be split again. Nothing else of the ring changes.
    pub fn split(&mut self) -> (handles: (Producer, Consumer))
        requires
            !old(self)@.split,
        ensures
            final(self)@ == (RingView { split: true, ..old(self)@ }),
            old(self).wf() ==> final(self).wf(),
    {
        self.handles_out = true;
        assert(self@.queue =~= old(self)@.queue);
        (Producer { role: () }, Consumer { role: () })
    }

    /// Whether the ring has been split.
    pub fn is_split(&self) -> (split: bool)
        ensures
            split == self@.split,
    {
        self.handles_out
    }
}

/// Producer handle (publishes).
pub struct Producer {
    role: (),
}

impl Producer {
    /// Attempt to publish a value.
    ///
    /// Returns `false`, changing nothing, exactly if the ring is full.
    pub fn try_publish<T: Copy, const N: usize>(&mut self, ring: &mut SpscRing<T, N>, value: T)
        -> (published:
        bool)
        requires
            old(ring).wf(),
            old(ring)@.published < u64::MAX,
        ensures
            final(ring).wf(),
            published == (old(ring)@.queue.len() < N),
            published ==> final(ring)@ == old(ring)@.publish(value),
            !published ==> final(ring)@ == old(ring)@,
    {
        let write_pos = ring.write_cursor;
        let capacity = N as u64;
        if write_pos - ring.cached_read >= capacity {
            // The mirror says full: look at the read cursor itself.
            let current_read = ring.read_cursor;
            ring.cached_read = current_read;
            if write_pos - current_read >= capacity {
                assert(ring@.queue =~= old(ring)@.queue);
                return false;
            }
        }
        let idx = cursor_slot(write_pos, N);
        ring.buffer[idx] = Some(value);
        ring.write_cursor = write_pos + 1;
        proof {
            let n = N as int;
            let r = ring.read_cursor as int;
            let before = old(ring)@.queue;
            assert forall|i: int| 0 <= i < before.len() implies #[trigger] ring_slot(r, i, n)
                != idx by {
                lemma_slots_distinct(r + i, write_pos as int, n);
            }
            assert(ring_slot(r, before.len() as int, n) == idx);
            assert(ring@.queue =~= before.push(value));
            assert forall|i: int| 0 <= i < ring.write_cursor - ring.read_cursor implies (
            #[trigger] ring.buffer@[ring_slot(r, i, n)]) is Some by {
                if i < before.len() {
                    assert(old(ring).buffer@[ring_slot(r, i, n)] is Some);
                }
            }
        }
        true
    }

    /// Publish a value, retrying until the ring takes it.
    ///
    /// The ring must have room: with a single owner nothing could make room
    /// while this waits.
    pub fn publish<T: Copy, const N: usize>(&mut self, ring: &mut SpscRing<T, N>, value: T)
        requires
            old(ring).wf(),
            old(ring)@.queue.len() < N,
            old(ring)@.published < u64::MAX,
        ensures
            final(ring).wf(),
            final(ring)@ == old(ring)@.publish(value),
    {
        loop
            invariant
                ring.wf(),
                ring@ == old(ring)@,
                ring@.queue.len() < N,
                ring@.published < u64::MAX,
            decreases 0int,
        {
            if self.try_publish(ring, value) {
                return ;
            }
        }
    }

    /// Publish a batch of values, in order, into a ring that has room for
    /// all of them.
    pub fn publish_batch<T: Copy, const N: usize>(&mut self, ring: &mut SpscRing<T, N>,
        values: &[T])
        requires
            old(ring).wf(),
            old(ring)@.queue.len() + values@.len() <= N,
            old(ring)@.published + values@.len() <= u64::MAX,
        ensures
            final(ring).wf(),
            final(ring)@ == old(ring)@.publish_many(values@),
    {
        let mut i: usize = 0;
        assert(old(ring)@.queue + values@.take(0) =~= old(ring)@.queue);
        while i < values.len()
            invariant
                i <= values@.len(),
                ring.wf(),
                old(ring)@.queue.len() + values@.len() <= N,
                old(ring)@.published + values@.len() <= u64::MAX,
                ring@ == old(ring)@.publish_many(values@.take(i as int)),
            decreases values@.len() - i,
        {
            let ghost before = ring@;
            self.publish(ring, values[i]);
            proof {
                assert(before.queue.push(values@[i as int]) =~= old(ring)@.queue + values@.take(
                    i + 1,
                ));
            }
            i = i + 1;
        }
        assert(values@.take(values@.len() as int) =~= values@);
    }

    /// Number of values that can be published before the ring is full.
    pub fn remaining_capacity<T: Copy, const N: usize>(&self, ring: &SpscRing<T, N>)
        -> (room: usize)
        requires
            ring.wf(),
        ensures
            room == N - ring@.queue.len(),
    {
        N - (ring.write_cursor - ring.read_cursor) as usize
    }
}

/// Consumer handle (consumes).
pub struct Consumer {
    role: (),
}

impl Consumer {
    /// Attempt to consume a value.
    ///
    /// Returns `None`, changing nothing, exactly if the ring is empty;
    /// otherwise the oldest value in flight.
    pub fn try_consume<T: Copy, const N: usize>(&mut self, ring: &mut SpscRing<T, N>) -> (value:
        Option<T>)
        requires
            old(ring).wf(),
        ensures
            final(ring).wf(),
            old(ring)@.queue.len() == 0 ==> value is None && final(ring)@ == old(ring)@,
            old(ring)@.queue.len() > 0 ==> value == Some(old(ring)@.queue[0]) && final(ring)@
                == old(ring)@.consume(),
    {
        let read_pos = ring.read_cursor;
        if read_pos >= ring.cached_write {
            // The mirror says empty: look at the write cursor itself.
            let current_write = ring.write_cursor;
            ring.cached_write = current_write;
            if read_pos >= current_write {
                assert(ring@.queue =~= old(ring)@.queue);
                return None;
            }
        }
        let idx = cursor_slot(read_pos, N);
        assert(old(ring).buffer@[ring_slot(read_pos as int, 0, N as int)] is Some);
        let value = match ring.buffer[idx] {
            Some(value) => value,
            None => {
                return None;
            },
        };
        ring.read_cursor = read_pos + 1;
        proof {
            let before = old(ring)@.queue;
            assert(before[0] == value);
            let n = N as int;
            let r = read_pos as int;
            assert forall|i: int| 0 <= i < ring@.queue.len() implies ring@.queue[i]
                == before.skip(1)[i] by {
                assert(ring_slot(r + 1, i, n) == ring_slot(r, i + 1, n));
            }
            assert(ring@.queue =~= before.skip(1));
            assert forall|i: int| 0 <= i < ring.write_cursor - ring.read_cursor implies (
            #[trigger] ring.buffer@[ring_slot(r + 1, i, n)]) is Some by {
                assert(ring_slot(r + 1, i, n) == ring_slot(r, i + 1, n));
                assert(old(ring).buffer@[ring_slot(r, i + 1, n)] is Some);
            }
        }
        Some(value)
    }

    /// Consume a value, retrying until the ring gives one.
    ///
    /// The ring must not be empty: with a single owner nothing could
    /// publish while this waits.
    pub fn consume<T: Copy, const N: usize>(&mut self, ring: &mut SpscRing<T, N>) -> (value: T)
        requires
            old(ring).wf(),
            old(ring)@.queue.len() > 0,
        ensures
            final(ring).wf(),
            value == old(ring)@.queue[0],
            final(ring)@ == old(ring)@.consume(),
    {
        loop
            invariant
                ring.wf(),
                ring@ == old(ring)@,
                ring@.queue.len() > 0,
            decreases 0int,
        {
            match self.try_consume(ring) {
                Some(value) => {
                    return value;
                },
                None => {},
            }
        }
    }

    /// Consume values into `buffer`, oldest first, until the buffer is full
    /// or the ring is empty.
    ///
    /// Returns the number of values consumed; they stand at the front of
    /// `buffer`, and the rest of `buffer` is as it was.
    pub fn consume_batch<T: Copy, const N: usize>(
        &mut self,
        ring: &mut SpscRing<T, N>,
        buffer: &mut [T],
    ) -> (count: usize)
        requires
            old(ring).wf(),
        ensures
            final(ring).wf(),
            count == if old(buffer)@.len() <= old(ring)@.queue.len() {
                old(buffer)@.len()
            } else {
                old(ring)@.queue.len()
            },
            final(ring)@ == old(ring)@.consume_many(count as nat),
            final(buffer)@ == old(ring)@.queue.take(count as int) + old(buffer)@.skip(count as int),
    {
        let mut count: usize = 0;
        let len = buffer.len();
        assert(ring@.queue.skip(0) =~= ring@.queue);
        assert(buffer@ =~= ring@.queue.take(0) + buffer@.skip(0));
        while count < len
            invariant
                ring.wf(),
                len == old(buffer)@.len(),
                buffer@.len() == len,
                count <= len,
                count <= old(ring)@.queue.len(),
                ring@ == old(ring)@.consume_many(count as nat),
                buffer@ == old(ring)@.queue.take(count as int) + old(buffer)@.skip(count as int),
            ensures
                count == len || count == old(ring)@.queue.len(),
            decreases len - count,
        {
            let ghost before = ring@;
            let ghost filled = buffer@;
            match self.try_consume(ring) {
                Some(value) => {
                    buffer[count] = value;
                    proof {
                        let queue = old(ring)@.queue;
                        assert(value == queue[count as int]);
                        assert(before.queue.skip(1) =~= queue.skip(count + 1));
                        assert(buffer@ =~= queue.take(count + 1) + old(buffer)@.skip(count + 1));
                    }
                    count = count + 1;
                },
                None => {
                    break ;
                },
            }
        }
        count
    }

    /// Number of values available to consume.
    pub fn available<T: Copy, const N: usize>(&self, ring: &SpscRing<T, N>) -> (count: usize)
        requires
            ring.wf(),
        ensures
            count == ring@.queue.len(),
    {
        (ring.write_cursor - ring.read_cursor) as usize
    }
}

/// Cursors less than a capacity apart occupy different slots.
proof fn lemma_slots_distinct(a: int, b: int, capacity: int)
    requires
        0 <= a < b < a + capacity,
    ensures
        a % capacity != b % capacity,
{
    if a % capacity == b % capacity {
        vstd::arithmetic::div_mod::lemma_fundamental_div_mod(a, capacity);
        vstd::arithmetic::div_mod::lemma_fundamental_div_mod(b, capacity);
        let qa = a / capacity;
        let qb = b / capacity;
        assert(b - a == capacity * (qb - qa)) by (nonlinear_arith)
            requires
                a == capacity * qa + a % capacity,
                b == capacity * qb + b % capacity,
                a % capacity == b % capacity,
        ;
        assert(false) by (nonlinear_arith)
            requires
                b - a == capacity * (qb - qa),
                0 < b - a < capacity,
        ;
    }
}

} // verus!
