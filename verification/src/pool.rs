//! Fixed-capacity order pool.
//!
//! All slots are created up front. Free slots are kept on a LIFO stack, so
//! the slot released last is handed out first.

use vstd::prelude::*;
use vstd::arithmetic::power2::{pow2, lemma2_to64, lemma_pow2_strictly_increases};
use vstd::bits::{lemma_u32_shl_is_mul, lemma_usize_shl_is_mul};
use crate::fixed::Quantity;
use crate::order::Order;

verus! {

/// Largest supported pool capacity (2^28 orders).
pub const MAX_POOL_CAPACITY: usize = 0x1000_0000;

/// Largest supported pool size exponent.
pub const MAX_POOL_BITS: u32 = 28;

/// Index into the order pool.
#[derive(Clone, Copy, Debug, PartialEq, Eq, Structural, Hash)]
pub struct OrderHandle(pub u32);

impl OrderHandle {
    /// The reserved invalid handle.
    pub fn invalid() -> (h: Self)
        ensures
            h == OrderHandle(u32::MAX),
    {
        OrderHandle(u32::MAX)
    }

    /// Check if the handle differs from the reserved invalid value.
    pub fn is_valid(self) -> (v: bool)
        ensures
            v == (self.0 != u32::MAX),
    {
        self.0 != u32::MAX
    }

    /// Get the raw index.
    pub fn index(self) -> (i: usize)
        ensures
            i == self.0,
    {
        self.0 as usize
    }
}

impl Default for OrderHandle {
    fn default() -> (h: Self)
        ensures
            h == OrderHandle(u32::MAX),
    {
        OrderHandle(u32::MAX)
    }
}

/// Mathematical model of an order pool.
pub struct PoolView {
    /// Number of slots.
    pub capacity: nat,
    /// The stack of free slot indices; the last element is the top.
    pub free: Seq<u32>,
    /// The orders stored in slots that hold one.
    pub orders: Map<u32, Order>,
    /// The count of handed-out slots.
    pub active: nat,
}

impl PoolView {
    /// The invariant of a pool: the free stack holds distinct in-range
    /// indices, the active count and the stack depth add up to the capacity,
    /// and no free slot holds an order.
    pub open spec fn wf(self) -> bool {
        &&& self.capacity <= MAX_POOL_CAPACITY
        &&& self.active + self.free.len() == self.capacity
        &&& self.free.no_duplicates()
        &&& forall|i: int| 0 <= i < self.free.len() ==> (#[trigger] self.free[i]) < self.capacity
        &&& forall|h: u32| #[trigger]
            self.orders.dom().contains(h) ==> h < self.capacity && !self.free.contains(h)
    }

    /// A pool of `capacity` free slots, stacked so that slot 0 is on top.
    pub open spec fn fresh(capacity: nat) -> PoolView {
        PoolView {
            capacity,
            free: Seq::new(capacity, |i: int| (capacity - 1 - i) as u32),
            orders: Map::empty(),
            active: 0,
        }
    }

    /// The slot of `handle` has been handed out and not yet returned.
    pub open spec fn allocated(self, handle: OrderHandle) -> bool {
        handle.0 < self.capacity && !self.free.contains(handle.0)
    }

    /// The slot of `handle` holds an order.
    pub open spec fn is_live(self, handle: OrderHandle) -> bool {
        self.orders.dom().contains(handle.0)
    }

    /// The order held for `handle`.
    pub open spec fn order(self, handle: OrderHandle) -> Order {
        self.orders[handle.0]
    }

    /// The pool after the top free slot has been handed out.
    pub open spec fn allocate(self) -> PoolView {
        PoolView { free: self.free.drop_last(), active: self.active + 1, ..self }
    }

    /// The pool after the slot of `handle` has been returned.
    pub open spec fn deallocate(self, handle: OrderHandle) -> PoolView {
        PoolView {
            free: self.free.push(handle.0),
            orders: self.orders.remove(handle.0),
            active: (self.active - 1) as nat,
            ..self
        }
    }

    /// The pool after `order` has been written to the slot of `handle`.
    pub open spec fn insert(self, handle: OrderHandle, order: Order) -> PoolView {
        PoolView { orders: self.orders.insert(handle.0, order), ..self }
    }

    /// The pool after `qty` has executed against the order under `handle`. A
    /// maker left without quantity gives its slot back.
    pub open spec fn after_fill(self, handle: OrderHandle, qty: Quantity) -> PoolView {
        let maker = self.order(handle).filled_by(qty);
        if maker.remaining_qty.0 == 0 {
            self.insert(handle, maker).deallocate(handle)
        } else {
            self.insert(handle, maker)
        }
    }

    /// Writing an order into a handed-out slot keeps the invariant.
    pub proof fn lemma_insert_wf(self, handle: OrderHandle, order: Order)
        requires
            self.wf(),
            self.allocated(handle),
        ensures
            self.insert(handle, order).wf(),
    {
        let after = self.insert(handle, order);
        assert forall|h: u32| #[trigger] after.orders.dom().contains(h) implies h < after.capacity
            && !after.free.contains(h) by {
            if h != handle.0 {
                assert(self.orders.dom().contains(h));
            }
        }
    }

    /// An execution against a live order keeps the invariant. No other slot
    /// changes; the slot of the order is freed exactly if the order is left
    /// without quantity.
    pub proof fn lemma_after_fill(self, handle: OrderHandle, qty: Quantity)
        requires
            self.wf(),
            self.is_live(handle),
        ensures
            self.after_fill(handle, qty).wf(),
            self.after_fill(handle, qty).capacity == self.capacity,
            forall|h: u32|
                h != handle.0 ==> (#[trigger] self.after_fill(handle, qty).orders.dom().contains(h)
                    == self.orders.dom().contains(h)),
            forall|h: u32|
                h != handle.0 && self.orders.dom().contains(h) ==> #[trigger] self.after_fill(
                    handle,
                    qty,
                ).orders[h] == self.orders[h],
            self.after_fill(handle, qty).is_live(handle)
                == (self.order(handle).filled_by(qty).remaining_qty.0 != 0),
            self.after_fill(handle, qty).is_live(handle) ==> self.after_fill(handle,
                qty).order(handle) == self.order(handle).filled_by(qty),
            self.after_fill(handle, qty).free
                == (if self.order(handle).filled_by(qty).remaining_qty.0 == 0 {
                self.free.push(handle.0)
            } else {
                self.free
            }),
    {
        let maker = self.order(handle).filled_by(qty);
        assert(self.orders.dom().contains(handle.0));
        self.lemma_insert_wf(handle, maker);
        if maker.remaining_qty.0 == 0 {
            self.insert(handle, maker).lemma_deallocate_wf(handle);
        }
    }

    /// Handing out a slot keeps the invariant.
    pub proof fn lemma_allocate_wf(self)
        requires
            self.wf(),
            self.free.len() > 0,
        ensures
            self.allocate().wf(),
            self.allocate().allocated(OrderHandle(self.free.last())),
            !self.allocate().is_live(OrderHandle(self.free.last())),
    {
        let top = self.free.last();
        let rest = self.free.drop_last();
        assert(self.free[self.free.len() - 1] == top);
        assert forall|i: int| 0 <= i < rest.len() implies (#[trigger] rest[i]) < self.capacity by {
            assert(rest[i] == self.free[i]);
        }
        assert forall|h: u32| #[trigger] self.orders.dom().contains(h)
            implies !rest.contains(h) by {
            if rest.contains(h) {
                let i = choose|i: int| 0 <= i < rest.len() && rest[i] == h;
                assert(self.free[i] == h);
                assert(self.free.contains(h));
            }
        }
        if rest.contains(top) {
            let i = choose|i: int| 0 <= i < rest.len() && rest[i] == top;
            assert(self.free[i] == top);
        }
        assert(self.free.contains(top));
    }

    /// Returning a handed-out slot keeps the invariant.
    pub proof fn lemma_deallocate_wf(self, handle: OrderHandle)
        requires
            self.wf(),
            self.allocated(handle),
        ensures
            self.deallocate(handle).wf(),
            self.active > 0,
    {
        let after = self.deallocate(handle);
        assert forall|i: int| 0 <= i < after.free.len() implies (#[trigger] after.free[i])
            < self.capacity by {
            if i < self.free.len() {
                assert(after.free[i] == self.free[i]);
            }
        }
        assert forall|h: u32| #[trigger] after.orders.dom().contains(h) implies h < self.capacity
            && !after.free.contains(h) by {
            assert(self.orders.dom().contains(h));
            if after.free.contains(h) {
                let i = choose|i: int| 0 <= i < after.free.len() && after.free[i] == h;
                if i < self.free.len() {
                    assert(self.free[i] == h);
                }
            }
        }
        assert forall|i: int, j: int|
            0 <= i < after.free.len() && 0 <= j < after.free.len() && i != j implies after.free[i]
            != after.free[j] by {
            if i < self.free.len() && j < self.free.len() {
                assert(after.free[i] == self.free[i]);
                assert(after.free[j] == self.free[j]);
            } else if i < self.free.len() {
                assert(after.free[i] == self.free[i]);
                assert(self.free.contains(self.free[i]));
            } else {
                assert(after.free[j] == self.free[j]);
                assert(self.free.contains(self.free[j]));
            }
        }
        if self.active == 0 {
            self.free.unique_seq_to_set();
            vstd::seq_lib::seq_to_set_is_finite(self.free);
            let bound = Set::new(|h: u32| h < self.capacity);
            lemma_below_set_len(self.capacity);
            assert(self.free.to_set().subset_of(bound)) by {
                assert forall|h: u32| self.free.to_set().contains(h) implies bound.contains(h) by {
                    let i = choose|i: int| 0 <= i < self.free.len() && self.free[i] == h;
                    assert(self.free[i] < self.capacity);
                }
            }
            vstd::set_lib::lemma_subset_equality(self.free.to_set(), bound);
            assert(bound.contains(handle.0));
            assert(self.free.contains(handle.0));
        }
    }
}

/// The set of `u32` values below `n` has `n` elements.
proof fn lemma_below_set_len(n: nat)
    requires
        n <= u32::MAX,
    ensures
        Set::new(|h: u32| h < n).finite(),
        Set::new(|h: u32| h < n).len() == n,
    decreases n,
{
    let s = Set::new(|h: u32| h < n);
    if n == 0 {
        assert(s =~= Set::empty());
    } else {
        let prev = Set::new(|h: u32| h < (n - 1) as nat);
        lemma_below_set_len((n - 1) as nat);
        assert(s =~= prev.insert((n - 1) as u32));
    }
}

/// Pre-allocated pool of orders.
pub struct OrderPool {
    /// One slot per handle; `None` while the slot holds no order.
    slots: Vec<Option<Order>>,
    /// LIFO stack of free slot indices.
    free_list: Vec<u32>,
    /// Total capacity.
    capacity: u32,
    /// Number of handed-out slots.
    active_count: u32,
}

impl View for OrderPool {
    type V = PoolView;

    closed spec fn view(&self) -> PoolView {
        PoolView {
            capacity: self.capacity as nat,
            free: self.free_list@,
            orders: Map::new(
                |h: u32| h < self.slots@.len() && self.slots@[h as int] is Some,
                |h: u32| self.slots@[h as int]->0,
            ),
            active: self.active_count as nat,
        }
    }
}

impl OrderPool {
    /// The representation matches its model.
    pub closed spec fn repr_ok(&self) -> bool {
        self.slots@.len() == self.capacity
    }

    /// The pool invariant.
    pub open spec fn wf(&self) -> bool {
        self.repr_ok() && self@.wf()
    }

    /// Create a new pool with `2^order_bits` slots, all free.
    pub fn new(order_bits: u32) -> (pool: Self)
        requires
            order_bits <= MAX_POOL_BITS,
        ensures
            pool.wf(),
            pool@ == PoolView::fresh(pow2(order_bits as nat)),
    {
        proof {
            lemma2_to64();
            if order_bits < 28 {
                lemma_pow2_strictly_increases(order_bits as nat, 28);
            }
            lemma_u32_shl_is_mul(1u32, order_bits);
        }
        let capacity: u32 = 1u32 << order_bits;
        let mut slots: Vec<Option<Order>> = Vec::with_capacity(capacity as usize);
        let mut free_list: Vec<u32> = Vec::with_capacity(capacity as usize);
        let mut i: u32 = 0;
        while i < capacity
            invariant
                i <= capacity,
                slots@.len() == i,
                free_list@.len() == i,
                forall|k: int| 0 <= k < i ==> slots@[k] is None,
                forall|k: int| 0 <= k < i ==> free_list@[k] == (capacity - 1 - k) as u32,
            decreases capacity - i,
        {
            slots.push(None);
            free_list.push(capacity - 1 - i);
            i = i + 1;
        }
        let pool = OrderPool { slots, free_list, capacity, active_count: 0 };
        proof {
            let fresh = PoolView::fresh(capacity as nat);
            assert(pool@.free =~= fresh.free);
            assert(pool@.orders =~= fresh.orders);
            assert(fresh.free.no_duplicates());
        }
        pool
    }

    /// Create a pool with the given capacity, which must be a power of two
    /// no larger than `MAX_POOL_CAPACITY`.
    pub fn with_capacity(capacity: usize) -> (pool: Self)
        requires
            exists|bits: nat| bits <= MAX_POOL_BITS && capacity == pow2(bits),
        ensures
            pool.wf(),
            pool@ == PoolView::fresh(capacity as nat),
    {
        let ghost target = choose|bits: nat| bits <= MAX_POOL_BITS && capacity == pow2(bits);
        let mut bits: u32 = 0;
        proof {
            lemma2_to64();
        }
        while bits < MAX_POOL_BITS && (1usize << bits) != capacity
            invariant
                bits <= target <= MAX_POOL_BITS,
                capacity == pow2(target),
            decreases MAX_POOL_BITS - bits,
        {
            proof {
                lemma2_to64();
                if bits < 28 {
                    lemma_pow2_strictly_increases(bits as nat, 28);
                }
                lemma_usize_shl_is_mul(1usize, bits as usize);
            }
            bits = bits + 1;
        }
        proof {
            lemma2_to64();
            if bits < 28 {
                lemma_pow2_strictly_increases(bits as nat, 28);
                lemma_usize_shl_is_mul(1usize, bits as usize);
            }
            if bits < target {
                lemma_pow2_strictly_increases(bits as nat, target);
            }
        }
        Self::new(bits)
    }

    /// Hand out the slot on top of the free stack, or `None` when no slot
    /// is free.
    pub fn allocate(&mut self) -> (handle: Option<OrderHandle>)
        requires
            old(self).wf(),
        ensures
            final(self).wf(),
            old(self)@.free.len() == 0 ==> handle is None && final(self)@ == old(self)@,
            old(self)@.free.len() > 0 ==> handle == Some(OrderHandle(old(self)@.free.last()))
                && final(self)@ == old(self)@.allocate(),
    {
        proof {
            if self@.free.len() > 0 {
                self@.lemma_allocate_wf();
            }
        }
        match self.free_list.pop() {
            Some(idx) => {
                self.active_count = self.active_count + 1;
                assert(self@.orders =~= old(self)@.orders);
                Some(OrderHandle(idx))
            },
            None => {
                assert(self@.orders =~= old(self)@.orders);
                None
            },
        }
    }

    /// Return a handed-out slot to the pool; any order it held is dropped.
    pub fn deallocate(&mut self, handle: OrderHandle)
        requires
            old(self).wf(),
            old(self)@.allocated(handle),
        ensures
            final(self).wf(),
            final(self)@ == old(self)@.deallocate(handle),
    {
        proof {
            self@.lemma_deallocate_wf(handle);
        }
        self.free_list.push(handle.0);
        self.slots[handle.index()] = None;
        self.active_count = self.active_count - 1;
        assert(self@.orders =~= old(self)@.orders.remove(handle.0));
    }

    /// Whether the slot of `handle` holds an order.
    pub fn contains(&self, handle: OrderHandle) -> (live: bool)
        requires
            self.wf(),
        ensures
            live == self@.is_live(handle),
    {
        handle.index() < self.slots.len() && self.slots[handle.index()].is_some()
    }

    /// Get the order in the slot of a live handle.
    pub fn get(&self, handle: OrderHandle) -> (order: &Order)
        requires
            self.wf(),
            self@.is_live(handle),
        ensures
            *order == self@.order(handle),
    {
        self.slots[handle.index()].as_ref().unwrap()
    }

    /// Get the order in the slot of a live handle, for modification.
    pub fn get_mut(&mut self, handle: OrderHandle) -> (order: &mut Order)
        requires
            old(self).wf(),
            old(self)@.is_live(handle),
        ensures
            *order == old(self)@.order(handle),
            final(self)@ == old(self)@.insert(handle, *final(order)),
            final(self).wf(),
    {
        let ghost before = self@;
        let slot = &mut self.slots[handle.index()];
        let order = slot.as_mut().unwrap();
        proof {
            let after = after_borrow(*self);
            assert(after@.orders =~= before.orders.insert(handle.0, *final(order)));
        }
        order
    }

    /// Write an order into a handed-out slot.
    pub fn insert(&mut self, handle: OrderHandle, order: Order)
        requires
            old(self).wf(),
            old(self)@.allocated(handle),
        ensures
            final(self).wf(),
            final(self)@ == old(self)@.insert(handle, order),
    {
        self.slots[handle.index()] = Some(order);
        assert(self@.orders =~= old(self)@.orders.insert(handle.0, order));
    }

    /// Hand out a slot and write `order` into it; `None` when no slot is
    /// free.
    pub fn allocate_and_insert(&mut self, order: Order) -> (handle: Option<OrderHandle>)
        requires
            old(self).wf(),
        ensures
            final(self).wf(),
            old(self)@.free.len() == 0 ==> handle is None && final(self)@ == old(self)@,
            old(self)@.free.len() > 0 ==> handle == Some(OrderHandle(old(self)@.free.last()))
                && final(self)@ == old(self)@.allocate().insert(
                OrderHandle(old(self)@.free.last()),
                order,
            ),
    {
        proof {
            if self@.free.len() > 0 {
                self@.lemma_allocate_wf();
            }
        }
        match self.allocate() {
            Some(handle) => {
                self.insert(handle, order);
                Some(handle)
            },
            None => None,
        }
    }

    /// Number of free slots.
    pub fn available(&self) -> (n: usize)
        ensures
            n == self@.free.len(),
    {
        self.free_list.len()
    }

    /// Number of handed-out slots.
    pub fn active(&self) -> (n: usize)
        ensures
            n == self@.active,
    {
        self.active_count as usize
    }

    /// Total capacity.
    pub fn capacity(&self) -> (n: usize)
        ensures
            n == self@.capacity,
    {
        self.capacity as usize
    }

    /// Check if every slot is handed out.
    pub fn is_full(&self) -> (full: bool)
        ensures
            full == (self@.free.len() == 0),
    {
        self.free_list.len() == 0
    }

    /// Check if no slot is handed out.
    pub fn is_empty(&self) -> (empty: bool)
        ensures
            empty == (self@.active == 0),
    {
        self.active_count == 0
    }
}

} // verus!
