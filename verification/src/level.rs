//! Price level: a bounded FIFO queue of order handles at one price.
//!
//! The queue is a circular buffer, so push and pop are O(1) and arrival
//! order (time priority) is kept.

use vstd::prelude::*;
use crate::fixed::{Quantity, sat_add, sat_sub};
use crate::pool::OrderHandle;

verus! {

/// Maximum orders per price level.
pub const MAX_ORDERS_PER_LEVEL: usize = 1024;

/// Position of the first occurrence of `handle` in `handles`, or the length
/// of `handles` when it does not occur.
pub open spec fn first_index(handles: Seq<OrderHandle>, handle: OrderHandle) -> int
    decreases handles.len(),
{
    if handles.len() == 0 {
        0
    } else if handles[0] == handle {
        0
    } else {
        1 + first_index(handles.skip(1), handle)
    }
}

/// `first_index` points at the first occurrence, if there is one.
pub proof fn lemma_first_index(handles: Seq<OrderHandle>, handle: OrderHandle)
    ensures
        0 <= first_index(handles, handle) <= handles.len(),
        forall|j: int| 0 <= j < first_index(handles, handle) ==> handles[j] != handle,
        first_index(handles, handle) < handles.len() ==> handles[first_index(handles, handle)]
            == handle,
        first_index(handles, handle) < handles.len() <==> handles.contains(handle),
    decreases handles.len(),
{
    if handles.len() == 0 {
    } else if handles[0] == handle {
    } else {
        let rest = handles.skip(1);
        lemma_first_index(rest, handle);
        let k = first_index(rest, handle);
        assert forall|j: int| 0 <= j < k + 1 implies handles[j] != handle by {
            if j > 0 {
                assert(rest[j - 1] == handles[j]);
            }
        }
        if k < rest.len() {
            assert(rest[k] == handles[k + 1]);
        }
        if handles.contains(handle) {
            let i = choose|i: int| 0 <= i < handles.len() && handles[i] == handle;
            assert(rest[i - 1] == handle);
            assert(rest.contains(handle));
        }
    }
}

/// Mathematical model of a price level.
pub struct LevelView {
    /// The queued handles, oldest first.
    pub handles: Seq<OrderHandle>,
    /// The cached aggregate quantity.
    pub total_qty: Quantity,
}

impl LevelView {
    /// The empty level.
    pub open spec fn empty() -> LevelView {
        LevelView { handles: Seq::empty(), total_qty: Quantity(0) }
    }

    /// The level after `handle` has joined the back with quantity `qty`.
    pub open spec fn push_back(self, handle: OrderHandle, qty: Quantity) -> LevelView {
        LevelView {
            handles: self.handles.push(handle),
            total_qty: Quantity(sat_add(self.total_qty.0, qty.0)),
        }
    }

    /// The level after the oldest handle has left; the aggregate stays.
    pub open spec fn pop_front(self) -> LevelView {
        LevelView { handles: self.handles.skip(1), ..self }
    }

    /// The level after the first occurrence of `handle` has left; the
    /// aggregate stays.
    pub open spec fn remove(self, handle: OrderHandle) -> LevelView {
        if self.handles.contains(handle) {
            LevelView { handles: self.handles.remove(first_index(self.handles, handle)), ..self }
        } else {
            self
        }
    }

    /// The level with the aggregate reduced by `qty`, clamped at zero.
    pub open spec fn reduce_qty(self, qty: Quantity) -> LevelView {
        LevelView { total_qty: Quantity(sat_sub(self.total_qty.0, qty.0)), ..self }
    }

    /// The level with the aggregate raised by `qty`, clamped at `u64::MAX`.
    pub open spec fn add_qty(self, qty: Quantity) -> LevelView {
        LevelView { total_qty: Quantity(sat_add(self.total_qty.0, qty.0)), ..self }
    }
}

/// A single price level in the order book.
pub struct PriceLevel {
    /// Total quantity at this level.
    pub total_qty: Quantity,
    /// Number of orders at this level.
    order_count: u16,
    /// Head of the circular buffer (next to dequeue).
    head: u16,
    /// Tail of the circular buffer (next insert position).
    tail: u16,
    /// Circular buffer of order handles.
    orders: [OrderHandle; MAX_ORDERS_PER_LEVEL],
}

/// Slot of the `i`-th queued handle in a buffer whose head is at `head`.
pub open spec fn slot_of(head: int, i: int) -> int {
    (head + i) % (MAX_ORDERS_PER_LEVEL as int)
}

/// Distinct queue positions occupy distinct slots.
proof fn lemma_slot_injective(head: int, a: int, b: int)
    requires
        0 <= head < MAX_ORDERS_PER_LEVEL,
        0 <= a < MAX_ORDERS_PER_LEVEL,
        0 <= b < MAX_ORDERS_PER_LEVEL,
        a != b,
    ensures
        slot_of(head, a) != slot_of(head, b),
        0 <= slot_of(head, a) < MAX_ORDERS_PER_LEVEL,
{
}

impl View for PriceLevel {
    type V = LevelView;

    closed spec fn view(&self) -> LevelView {
        LevelView {
            handles: Seq::new(
                self.order_count as nat,
                |i: int| self.orders@[slot_of(self.head as int, i)],
            ),
            total_qty: self.total_qty,
        }
    }
}

impl PriceLevel {
    /// The buffer indices are in range and agree with the order count.
    pub closed spec fn wf(&self) -> bool {
        &&& self.head < MAX_ORDERS_PER_LEVEL
        &&& self.order_count <= MAX_ORDERS_PER_LEVEL
        &&& self.tail == slot_of(self.head as int, self.order_count as int)
    }

    /// The queue never holds more than `MAX_ORDERS_PER_LEVEL` handles.
    pub proof fn lemma_bounded(&self)
        requires
            self.wf(),
        ensures
            self@.handles.len() <= MAX_ORDERS_PER_LEVEL,
    {
    }

    /// Create a new empty price level.
    pub fn new() -> (level: Self)
        ensures
            level.wf(),
            level@ == LevelView::empty(),
    {
        let level = PriceLevel {
            total_qty: Quantity(0),
            order_count: 0,
            head: 0,
            tail: 0,
            orders: [OrderHandle(u32::MAX); MAX_ORDERS_PER_LEVEL],
        };
        assert(level@.handles =~= Seq::empty());
        level
    }

    /// The cached aggregate quantity.
    pub fn total_qty(&self) -> (qty: Quantity)
        ensures
            qty == self@.total_qty,
    {
        self.total_qty
    }

    /// Check if the level is empty.
    pub fn is_empty(&self) -> (empty: bool)
        ensures
            empty == (self@.handles.len() == 0),
    {
        self.order_count == 0
    }

    /// Number of orders at this level.
    pub fn len(&self) -> (n: usize)
        ensures
            n == self@.handles.len(),
    {
        self.order_count as usize
    }

    /// Check if the level is full.
    pub fn is_full(&self) -> (full: bool)
        ensures
            full == (self@.handles.len() >= MAX_ORDERS_PER_LEVEL),
    {
        self.order_count as usize >= MAX_ORDERS_PER_LEVEL
    }

    /// Add a handle to the back of the queue and `qty` to the aggregate.
    ///
    /// Returns `false`, changing nothing, if the level is full.
    pub fn push_back(&mut self, handle: OrderHandle, qty: Quantity) -> (pushed: bool)
        requires
            old(self).wf(),
        ensures
            final(self).wf(),
            pushed == (old(self)@.handles.len() < MAX_ORDERS_PER_LEVEL),
            pushed ==> final(self)@ == old(self)@.push_back(handle, qty),
            !pushed ==> final(self)@ == old(self)@,
    {
        if self.is_full() {
            return false;
        }
        self.orders[self.tail as usize] = handle;
        self.tail = ((self.tail as usize + 1) % MAX_ORDERS_PER_LEVEL) as u16;
        self.order_count = self.order_count + 1;
        self.total_qty = self.total_qty.saturating_add(qty);
        proof {
            let before = old(self)@.handles;
            let after = self@.handles;
            assert forall|i: int| 0 <= i < after.len() implies after[i]
                == before.push(handle)[i] by {
                if i < before.len() {
                    assert(slot_of(self.head as int, i) != old(self).tail);
                }
            }
            assert(after =~= before.push(handle));
        }
        true
    }

    /// Get the handle at the front of the queue.
    pub fn front(&self) -> (handle: Option<OrderHandle>)
        requires
            self.wf(),
        ensures
            handle == if self@.handles.len() == 0 {
                None
            } else {
                Some(self@.handles[0])
            },
    {
        if self.is_empty() {
            None
        } else {
            Some(self.orders[self.head as usize])
        }
    }

    /// Peek at the front handle without removing it.
    pub fn peek(&self) -> (handle: Option<OrderHandle>)
        requires
            self.wf(),
        ensures
            handle == if self@.handles.len() == 0 {
                None
            } else {
                Some(self@.handles[0])
            },
    {
        self.front()
    }

    /// Remove the handle at the front of the queue.
    ///
    /// The aggregate quantity is left as it is: the caller accounts for the
    /// quantity that leaves with the order.
    pub fn pop_front(&mut self) -> (handle: Option<OrderHandle>)
        requires
            old(self).wf(),
        ensures
            final(self).wf(),
            old(self)@.handles.len() == 0 ==> handle is None && final(self)@ == old(self)@,
            old(self)@.handles.len() > 0 ==> handle == Some(old(self)@.handles[0])
                && final(self)@ == old(self)@.pop_front(),
    {
        if self.is_empty() {
            return None;
        }
        let handle = self.orders[self.head as usize];
        self.orders[self.head as usize] = OrderHandle(u32::MAX);
        self.head = ((self.head as usize + 1) % MAX_ORDERS_PER_LEVEL) as u16;
        self.order_count = self.order_count - 1;
        proof {
            let before = old(self)@.handles;
            let after = self@.handles;
            assert forall|i: int| 0 <= i < after.len() implies after[i] == before.skip(1)[i] by {
                assert(slot_of(self.head as int, i) == slot_of(old(self).head as int, i + 1));
                assert(slot_of(old(self).head as int, i + 1) != old(self).head);
            }
            assert(after =~= before.skip(1));
        }
        Some(handle)
    }

    /// Position of the first occurrence of `handle` in the queue, or the
    /// queue length when it is not queued.
    fn position_of(&self, handle: OrderHandle) -> (pos: usize)
        requires
            self.wf(),
        ensures
            pos == first_index(self@.handles, handle),
            pos <= self@.handles.len(),
    {
        let count = self.order_count as usize;
        let head = self.head as usize;
        let ghost queued = self@.handles;
        proof {
            lemma_first_index(queued, handle);
        }
        let mut pos: usize = 0;
        while pos < count && self.orders[(head + pos) % MAX_ORDERS_PER_LEVEL] != handle
            invariant
                pos <= count,
                count == self.order_count,
                head == self.head,
                head < MAX_ORDERS_PER_LEVEL,
                count <= MAX_ORDERS_PER_LEVEL,
                queued == self@.handles,
                forall|j: int| 0 <= j < pos ==> queued[j] != handle,
            decreases count - pos,
        {
            assert(queued[pos as int] == self.orders@[slot_of(head as int, pos as int)]);
            pos = pos + 1;
        }
        proof {
            if pos < count {
                assert(queued[pos as int] == self.orders@[slot_of(head as int, pos as int)]);
            }
        }
        pos
    }

    /// Close the gap at queue position `pos` by moving every later handle one
    /// place towards the front.
    fn remove_at(&mut self, pos: usize)
        requires
            old(self).wf(),
            pos < old(self)@.handles.len(),
        ensures
            final(self).wf(),
            final(self)@.handles == old(self)@.handles.remove(pos as int),
            final(self)@.total_qty == old(self)@.total_qty,
    {
        let count = self.order_count as usize;
        let head = self.head as usize;
        let ghost before = self@.handles;
        let mut j: usize = pos;
        while j + 1 < count
            invariant
                pos <= j < count,
                count == self.order_count,
                head == self.head,
                head < MAX_ORDERS_PER_LEVEL,
                count <= MAX_ORDERS_PER_LEVEL,
                self.tail == old(self).tail,
                self.total_qty == old(self).total_qty,
                before.len() == count,
                self@.handles.len() == count,
                forall|k: int| 0 <= k < pos ==> self@.handles[k] == before[k],
                forall|k: int| pos <= k < j ==> self@.handles[k] == before[k + 1],
                forall|k: int| j <= k < count ==> self@.handles[k] == before[k],
            decreases count - j,
        {
            let ghost cur = self@.handles;
            let next = self.orders[(head + j + 1) % MAX_ORDERS_PER_LEVEL];
            assert(next == cur[j + 1]);
            assert(cur[j + 1] == before[j + 1]);
            self.orders[(head + j) % MAX_ORDERS_PER_LEVEL] = next;
            proof {
                assert forall|k: int| 0 <= k < count && k != j implies self@.handles[k]
                    == cur[k] by {
                    lemma_slot_injective(head as int, k, j as int);
                }
                assert(self@.handles[j as int] == next);
                assert forall|k: int| pos <= k < j + 1 implies self@.handles[k] == before[k
                    + 1] by {
                    if k < j {
                        assert(cur[k] == before[k + 1]);
                    }
                }
                assert forall|k: int| j + 1 <= k < count implies self@.handles[k]
                    == before[k] by {
                    assert(cur[k] == before[k]);
                }
                assert forall|k: int| 0 <= k < pos implies self@.handles[k] == before[k] by {
                    assert(cur[k] == before[k]);
                }
            }
            j = j + 1;
        }
        let ghost cur = self@.handles;
        let ghost last = slot_of(head as int, count - 1);
        self.tail = ((self.tail as usize + MAX_ORDERS_PER_LEVEL - 1) % MAX_ORDERS_PER_LEVEL) as u16;
        assert(self.tail == last);
        self.orders[self.tail as usize] = OrderHandle(u32::MAX);
        self.order_count = self.order_count - 1;
        proof {
            let after = self@.handles;
            let expect = before.remove(pos as int);
            assert forall|k: int| 0 <= k < after.len() implies after[k] == expect[k] by {
                lemma_slot_injective(head as int, k, count - 1);
                assert(after[k] == cur[k]);
            }
            assert(after =~= expect);
        }
    }

    /// Remove the first occurrence of `handle` from the queue, keeping the
    /// order of the others. Returns whether the handle was queued.
    ///
    /// The aggregate quantity is left as it is.
    pub fn remove(&mut self, handle: OrderHandle) -> (removed: bool)
        requires
            old(self).wf(),
        ensures
            final(self).wf(),
            removed == old(self)@.handles.contains(handle),
            final(self)@ == old(self)@.remove(handle),
    {
        proof {
            lemma_first_index(self@.handles, handle);
        }
        let pos = self.position_of(handle);
        if pos >= self.len() {
            return false;
        }
        self.remove_at(pos);
        true
    }

    /// Reduce the aggregate quantity (after a partial or full fill).
    pub fn reduce_qty(&mut self, qty: Quantity)
        requires
            old(self).wf(),
        ensures
            final(self).wf(),
            final(self)@ == old(self)@.reduce_qty(qty),
    {
        self.total_qty = self.total_qty.saturating_sub(qty);
        assert(self@.handles =~= old(self)@.handles);
    }

    /// Add to the aggregate quantity.
    pub fn add_qty(&mut self, qty: Quantity)
        requires
            old(self).wf(),
        ensures
            final(self).wf(),
            final(self)@ == old(self)@.add_qty(qty),
    {
        self.total_qty = self.total_qty.saturating_add(qty);
        assert(self@.handles =~= old(self)@.handles);
    }

    /// Reset the level to the empty state.
    pub fn clear(&mut self)
        ensures
            final(self).wf(),
            final(self)@ == LevelView::empty(),
    {
        self.order_count = 0;
        self.head = 0;
        self.tail = 0;
        self.total_qty = Quantity(0);
        assert(self@.handles =~= Seq::empty());
    }

    /// Walk over the queued handles, oldest first.
    pub fn iter(&self) -> (it: PriceLevelIter<'_>)
        requires
            self.wf(),
        ensures
            it.wf(),
            it.level() == self,
            it.position() == 0,
    {
        PriceLevelIter { level: self, pos: 0 }
    }

    /// The queued handles, oldest first.
    pub fn handles(&self) -> (handles: Vec<OrderHandle>)
        requires
            self.wf(),
        ensures
            handles@ == self@.handles,
    {
        let mut handles: Vec<OrderHandle> = Vec::new();
        let mut it = self.iter();
        loop
            invariant
                it.wf(),
                it.level() == self,
                it.position() == handles@.len(),
                handles@ == self@.handles.take(handles@.len() as int),
            ensures
                handles@ == self@.handles,
            decreases self@.handles.len() - it.position(),
        {
            match it.next() {
                Some(handle) => {
                    handles.push(handle);
                    assert(handles@ =~= self@.handles.take(handles@.len() as int));
                },
                None => {
                    assert(handles@ =~= self@.handles);
                    break ;
                },
            }
        }
        handles
    }
}

impl Default for PriceLevel {
    fn default() -> (level: Self)
        ensures
            level.wf(),
            level@ == LevelView::empty(),
    {
        PriceLevel::new()
    }
}

/// Cursor over the handles of a price level.
pub struct PriceLevelIter<'a> {
    level: &'a PriceLevel,
    pos: usize,
}

impl<'a> PriceLevelIter<'a> {
    /// The level being walked.
    pub closed spec fn level(&self) -> &PriceLevel {
        self.level
    }

    /// The number of handles already yielded.
    pub closed spec fn position(&self) -> nat {
        self.pos as nat
    }

    /// The cursor is within its level.
    pub closed spec fn wf(&self) -> bool {
        self.level.wf() && self.pos <= self.level@.handles.len()
    }

    /// Yield the next handle, or `None` when all have been yielded.
    pub fn next(&mut self) -> (handle: Option<OrderHandle>)
        requires
            old(self).wf(),
        ensures
            final(self).wf(),
            final(self).level() == old(self).level(),
            old(self).position() >= old(self).level()@.handles.len() ==> handle is None
                && final(self).position() == old(self).position(),
            old(self).position() < old(self).level()@.handles.len() ==> handle == Some(
                old(self).level()@.handles[old(self).position() as int],
            ) && final(self).position() == old(self).position() + 1,
    {
        if self.pos >= self.level.order_count as usize {
            return None;
        }
        let idx = (self.level.head as usize + self.pos) % MAX_ORDERS_PER_LEVEL;
        self.pos = self.pos + 1;
        Some(self.level.orders[idx])
    }

    /// Lower and upper bound on the number of handles still to come.
    pub fn size_hint(&self) -> (bounds: (usize, Option<usize>))
        requires
            self.wf(),
        ensures
            bounds.0 == self.level()@.handles.len() - self.position(),
            bounds.1 == Some(bounds.0),
    {
        let remaining = self.level.order_count as usize - self.pos;
        (remaining, Some(remaining))
    }
}

} // verus!
