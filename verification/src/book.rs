//! Order book: two sides, each a dense array of price levels.
//!
//! A level is found in O(1) from its price: its index is the tick offset
//! from the side's base price. Each side caches the index of its best level.

use vstd::prelude::*;
use crate::fixed::{Price, Quantity, sat_add, sat_sub};
use crate::order::{Order, Side};
use crate::pool::OrderHandle;
use crate::level::{PriceLevel, LevelView, MAX_ORDERS_PER_LEVEL};

verus! {

/// Maximum number of price levels per side.
pub const MAX_LEVELS: usize = 65536;

/// Number of handles queued in a level slot; an absent level holds none.
pub open spec fn level_len(slot: Option<LevelView>) -> nat {
    match slot {
        Some(level) => level.handles.len(),
        None => 0,
    }
}

/// Aggregate quantity cached in a level slot; an absent level caches zero.
pub open spec fn level_qty(slot: Option<LevelView>) -> nat {
    match slot {
        Some(level) => level.total_qty.0 as nat,
        None => 0,
    }
}

/// Total number of handles queued in `levels`.
pub open spec fn count_orders(levels: Seq<Option<LevelView>>) -> nat
    decreases levels.len(),
{
    if levels.len() == 0 {
        0
    } else {
        count_orders(levels.drop_last()) + level_len(levels.last())
    }
}

/// Sum of the aggregate quantities cached in `levels`.
pub open spec fn sum_qty(levels: Seq<Option<LevelView>>) -> nat
    decreases levels.len(),
{
    if levels.len() == 0 {
        0
    } else {
        sum_qty(levels.drop_last()) + level_qty(levels.last())
    }
}

/// Replacing one slot changes the order count by the difference of the two
/// queue lengths, and the quantity sum by the difference of the aggregates.
pub proof fn lemma_sums_update(levels: Seq<Option<LevelView>>, i: int, slot: Option<LevelView>)
    requires
        0 <= i < levels.len(),
    ensures
        count_orders(levels.update(i, slot)) + level_len(levels[i]) == count_orders(levels)
            + level_len(slot),
        sum_qty(levels.update(i, slot)) + level_qty(levels[i]) == sum_qty(levels) + level_qty(slot),
        level_len(levels[i]) <= count_orders(levels),
        level_qty(levels[i]) <= sum_qty(levels),
    decreases levels.len(),
{
    let updated = levels.update(i, slot);
    if i == levels.len() - 1 {
        assert(updated.drop_last() =~= levels.drop_last());
    } else {
        lemma_sums_update(levels.drop_last(), i, slot);
        assert(updated.drop_last() =~= levels.drop_last().update(i, slot));
    }
}

/// A sequence of slots that queue nothing counts zero orders, and the
/// converse.
pub proof fn lemma_count_zero(levels: Seq<Option<LevelView>>)
    ensures
        count_orders(levels) == 0 <==> (forall|i: int|
            0 <= i < levels.len() ==> level_len(#[trigger] levels[i]) == 0),
    decreases levels.len(),
{
    if levels.len() > 0 {
        let front = levels.drop_last();
        lemma_count_zero(front);
        if count_orders(levels) == 0 {
            assert forall|i: int| 0 <= i < levels.len() implies level_len(#[trigger] levels[i])
                == 0 by {
                if i < front.len() {
                    assert(front[i] == levels[i]);
                }
            }
        } else if count_orders(front) != 0 {
            let i = choose|i: int| 0 <= i < front.len() && level_len(#[trigger] front[i]) != 0;
            assert(front[i] == levels[i]);
        }
    }
}

/// Highest index below `bound` whose level queues a handle.
pub open spec fn scan_down(levels: Seq<Option<LevelView>>, bound: int) -> Option<u32>
    decreases bound,
{
    if bound <= 0 {
        None
    } else if level_len(levels[bound - 1]) > 0 {
        Some((bound - 1) as u32)
    } else {
        scan_down(levels, bound - 1)
    }
}

/// Lowest index from `from` on whose level queues a handle.
pub open spec fn scan_up(levels: Seq<Option<LevelView>>, from: int) -> Option<u32>
    decreases levels.len() - from,
{
    if from >= levels.len() {
        None
    } else if level_len(levels[from]) > 0 {
        Some(from as u32)
    } else {
        scan_up(levels, from + 1)
    }
}

/// `scan_down` finds the highest occupied index below the bound, and finds
/// none only if there is none.
pub proof fn lemma_scan_down(levels: Seq<Option<LevelView>>, bound: int)
    requires
        0 <= bound <= levels.len() <= MAX_LEVELS,
    ensures
        match scan_down(levels, bound) {
            Some(j) => j < bound && level_len(levels[j as int]) > 0 && forall|i: int|
                j < i < bound ==> level_len(#[trigger] levels[i]) == 0,
            None => forall|i: int| 0 <= i < bound ==> level_len(#[trigger] levels[i]) == 0,
        },
    decreases bound,
{
    if bound > 0 && level_len(levels[bound - 1]) == 0 {
        lemma_scan_down(levels, bound - 1);
    }
}

/// `scan_up` finds the lowest occupied index from the start on, and finds
/// none only if there is none.
pub proof fn lemma_scan_up(levels: Seq<Option<LevelView>>, from: int)
    requires
        0 <= from <= levels.len() <= MAX_LEVELS,
    ensures
        match scan_up(levels, from) {
            Some(j) => from <= j < levels.len() && level_len(levels[j as int]) > 0
                && forall|i: int| from <= i < j ==> level_len(#[trigger] levels[i]) == 0,
            None => forall|i: int|
                from <= i < levels.len() ==> level_len(#[trigger] levels[i]) == 0,
        },
    decreases levels.len() - from,
{
    if from < levels.len() && level_len(levels[from]) == 0 {
        lemma_scan_up(levels, from + 1);
    }
}

/// Whether level index `a` holds a better price than index `b` on `side`:
/// higher for bids, lower for asks.
pub open spec fn is_better(side: Side, a: int, b: int) -> bool {
    match side {
        Side::Buy => a > b,
        Side::Sell => a < b,
    }
}

/// Mathematical model of one side of the book.
pub struct SideView {
    /// Which side this is.
    pub side: Side,
    /// Price of level index zero.
    pub base_price: Price,
    /// One slot per level index; `None` where no level has been created.
    pub levels: Seq<Option<LevelView>>,
    /// Cached index of the best level.
    pub best_idx: Option<u32>,
    /// Cached number of resting orders.
    pub order_count: u64,
    /// Cached aggregate resting quantity.
    pub total_qty: Quantity,
}

impl SideView {
    /// A side without levels.
    pub open spec fn empty(side: Side, base_price: Price) -> SideView {
        SideView {
            side,
            base_price,
            levels: Seq::new(MAX_LEVELS as nat, |i: int| None),
            best_idx: None,
            order_count: 0,
            total_qty: Quantity(0),
        }
    }

    /// Structural invariant: the array has `MAX_LEVELS` slots, no queue is
    /// over-long, and the best index and every created level stand for a
    /// representable price.
    pub open spec fn wf(self) -> bool {
        &&& self.levels.len() == MAX_LEVELS
        &&& self.best_idx matches Some(b) ==> b < MAX_LEVELS && self.base_price.0 + b
            * Price::TICK_SIZE <= u64::MAX
        &&& forall|i: int|
            0 <= i < MAX_LEVELS ==> ((#[trigger] self.levels[i]) matches Some(level)
                ==> level.handles.len() <= MAX_ORDERS_PER_LEVEL && self.base_price.0 + i
                * Price::TICK_SIZE <= u64::MAX)
    }

    /// The level index of a price: its tick offset from the base price, if
    /// that is within the array.
    pub open spec fn price_to_idx(self, price: Price) -> Option<int> {
        if price.0 < self.base_price.0 {
            None
        } else {
            let idx = (price.0 - self.base_price.0) / (Price::TICK_SIZE as int);
            if idx < MAX_LEVELS {
                Some(idx)
            } else {
                None
            }
        }
    }

    /// The price of a level index.
    pub open spec fn idx_to_price(self, idx: int) -> Price {
        Price((self.base_price.0 + idx * Price::TICK_SIZE) as u64)
    }

    /// The level at index `i` queues at least one handle.
    pub open spec fn occupied(self, i: int) -> bool {
        level_len(self.levels[i]) > 0
    }

    /// The level at the best index, if both exist.
    pub open spec fn best_level(self) -> Option<LevelView> {
        match self.best_idx {
            Some(b) => self.levels[b as int],
            None => None,
        }
    }

    /// The price of the best index.
    pub open spec fn best_price(self) -> Option<Price> {
        match self.best_idx {
            Some(b) => Some(self.idx_to_price(b as int)),
            None => None,
        }
    }

    /// The level at the index of `price`, if both exist.
    pub open spec fn level_at_price(self, price: Price) -> Option<LevelView> {
        match self.price_to_idx(price) {
            Some(i) => self.levels[i],
            None => None,
        }
    }

    /// Whether an incoming order at `price` on `incoming_side` crosses the
    /// best price of this (the opposite) side.
    pub open spec fn would_match(self, price: Price, incoming_side: Side) -> bool {
        match self.best_price() {
            Some(best) => match incoming_side {
                Side::Buy => price.0 >= best.0,
                Side::Sell => price.0 <= best.0,
            },
            None => false,
        }
    }

    /// This side with the slot at `i` replaced by the level `level`.
    pub open spec fn with_level(self, i: int, level: LevelView) -> SideView {
        SideView { levels: self.levels.update(i, Some(level)), ..self }
    }

    /// The level at index `i`, or a new empty level where none exists.
    pub open spec fn level_or_new(self, i: int) -> LevelView {
        match self.levels[i] {
            Some(level) => level,
            None => LevelView::empty(),
        }
    }

    /// Whether an order can join this side: its price has a level index and
    /// that level is not full.
    pub open spec fn can_add(self, order: Order) -> bool {
        self.price_to_idx(order.price) matches Some(i) && level_len(self.levels[i])
            < MAX_ORDERS_PER_LEVEL
    }

    /// The best index after an order has joined the level at `idx`.
    pub open spec fn best_after_add(self, idx: int) -> Option<u32> {
        match self.best_idx {
            None => Some(idx as u32),
            Some(current) => if is_better(self.side, idx, current as int) {
                Some(idx as u32)
            } else {
                Some(current)
            },
        }
    }

    /// This side after `order`, stored under `handle`, has joined the back
    /// of the level at its price.
    pub open spec fn add_order(self, handle: OrderHandle, order: Order) -> SideView {
        let i = self.price_to_idx(order.price)->0;
        SideView {
            levels: self.levels.update(
                i,
                Some(self.level_or_new(i).push_back(handle, order.remaining_qty)),
            ),
            best_idx: self.best_after_add(i),
            order_count: (self.order_count + 1) as u64,
            total_qty: Quantity(sat_add(self.total_qty.0, order.remaining_qty.0)),
            ..self
        }
    }

    /// The nearest occupied index that is worse than `current`.
    pub open spec fn next_best(self, current: int) -> Option<u32> {
        match self.side {
            Side::Buy => scan_down(self.levels, current),
            Side::Sell => scan_up(self.levels, current + 1),
        }
    }

    /// This side after the best index has been moved off an exhausted level:
    /// while the best level still queues a handle nothing changes; otherwise
    /// its slot is released and the nearest occupied worse index becomes the
    /// best.
    pub open spec fn find_next_best(self) -> SideView {
        match self.best_idx {
            None => self,
            Some(current) => if self.occupied(current as int) {
                self
            } else {
                SideView {
                    levels: self.levels.update(current as int, None),
                    best_idx: self.next_best(current as int),
                    ..self
                }
            },
        }
    }

    /// This side with the aggregate reduced by `qty`, clamped at zero.
    pub open spec fn reduce_qty(self, qty: Quantity) -> SideView {
        SideView { total_qty: Quantity(sat_sub(self.total_qty.0, qty.0)), ..self }
    }

    /// This side with the order count reduced by one, clamped at zero.
    pub open spec fn decrement_order_count(self) -> SideView {
        SideView { order_count: sat_sub(self.order_count, 1), ..self }
    }

    /// This side after `qty` has executed against the order at the front of
    /// the best level. With `maker_done` that order leaves the level and the
    /// order count follows. The best index moves on if the level is
    /// exhausted.
    pub open spec fn after_fill(self, qty: Quantity, maker_done: bool) -> SideView {
        let b = self.best_idx->0 as int;
        let level = self.levels[b]->0.reduce_qty(qty);
        if maker_done {
            self.with_level(b,
                level.pop_front()).decrement_order_count().reduce_qty(qty).find_next_best()
        } else {
            self.with_level(b, level).reduce_qty(qty).find_next_best()
        }
    }

    /// Whether `handle` is queued in the level at the index of `price`.
    pub open spec fn queues(self, handle: OrderHandle, price: Price) -> bool {
        self.level_at_price(price) matches Some(level) && level.handles.contains(handle)
    }

    /// The best index after the level at `idx` may have been emptied.
    pub open spec fn best_after_remove(self, idx: int) -> Option<u32> {
        if self.best_idx == Some(idx as u32) && !self.occupied(idx) {
            self.next_best(idx)
        } else {
            self.best_idx
        }
    }

    /// This side after the order under `handle`, resting at `price` with
    /// quantity `qty`, has been taken out of its level. A level left empty is
    /// released, and the best index moves on if it pointed there. Nothing
    /// changes if the handle is not queued at that price.
    pub open spec fn remove_order(self, handle: OrderHandle, price: Price, qty: Quantity)
        -> SideView {
        if self.queues(handle, price) {
            let i = self.price_to_idx(price)->0;
            let level = self.levels[i]->0.remove(handle).reduce_qty(qty);
            let slot = if level.handles.len() == 0 {
                None
            } else {
                Some(level)
            };
            let side = SideView { levels: self.levels.update(i, slot), ..self };
            SideView {
                best_idx: side.best_after_remove(i),
                order_count: sat_sub(self.order_count, 1),
                total_qty: Quantity(sat_sub(self.total_qty.0, qty.0)),
                ..side
            }
        } else {
            self
        }
    }

    /// Nothing better than the best index is occupied, and without a best
    /// index nothing is occupied at all.
    pub open spec fn best_covers(self) -> bool {
        match self.best_idx {
            Some(b) => forall|i: int|
                0 <= i < MAX_LEVELS && is_better(self.side, i, b as int)
                    ==> !#[trigger] self.occupied(i),
            None => forall|i: int| 0 <= i < MAX_LEVELS ==> !#[trigger] self.occupied(i),
        }
    }

    /// The best index, where there is one, points at an occupied level.
    pub open spec fn best_live(self) -> bool {
        self.best_idx matches Some(b) ==> self.occupied(b as int)
    }

    /// Every created level queues at least one handle.
    pub open spec fn no_empty_levels(self) -> bool {
        forall|i: int|
            0 <= i < MAX_LEVELS ==> ((#[trigger] self.levels[i]) matches Some(level)
                ==> level.handles.len() > 0)
    }

    /// The cached order count is the number of queued handles.
    pub open spec fn count_exact(self) -> bool {
        self.order_count == count_orders(self.levels)
    }

    /// The cached aggregate is the sum of the level aggregates.
    pub open spec fn qty_exact(self) -> bool {
        self.total_qty.0 == sum_qty(self.levels)
    }

    /// The invariant that the book keeps for a side between operations.
    pub open spec fn consistent(self) -> bool {
        &&& self.wf()
        &&& self.best_covers()
        &&& self.best_live()
        &&& self.no_empty_levels()
        &&& self.count_exact()
    }

    /// A side without levels is consistent.
    pub proof fn lemma_empty_consistent(side: Side, base_price: Price)
        ensures
            SideView::empty(side, base_price).consistent(),
            SideView::empty(side, base_price).qty_exact(),
    {
        let s = SideView::empty(side, base_price);
        lemma_count_zero(s.levels);
        lemma_sum_qty_zero(s.levels);
    }

    /// The best index is absent exactly when every level is empty.
    pub proof fn lemma_best_absent_iff_empty(self)
        requires
            self.consistent(),
        ensures
            self.best_idx is None <==> (forall|i: int|
                0 <= i < MAX_LEVELS ==> level_len(#[trigger] self.levels[i]) == 0),
    {
        if self.best_idx is None {
            assert forall|i: int| 0 <= i < MAX_LEVELS implies level_len(#[trigger] self.levels[i])
                == 0 by {
                assert(!self.occupied(i));
            }
        } else {
            assert(self.occupied(self.best_idx->0 as int));
        }
    }

    /// An index found by `price_to_idx` stands for a price no higher than the
    /// one it was found for.
    pub proof fn lemma_idx_price(self, price: Price)
        requires
            self.price_to_idx(price) is Some,
        ensures
            0 <= self.price_to_idx(price)->0 < MAX_LEVELS,
            self.base_price.0 + self.price_to_idx(price)->0 * Price::TICK_SIZE <= price.0,
            self.price_to_idx(self.idx_to_price(self.price_to_idx(price)->0))
                == self.price_to_idx(price),
    {
        let offset = price.0 - self.base_price.0;
        let idx = offset / 100;
        assert(idx * 100 <= offset);
        assert((idx * 100) / 100 == idx);
    }

    /// Adding an order keeps a consistent side consistent.
    pub proof fn lemma_add_order(self, handle: OrderHandle, order: Order)
        requires
            self.consistent(),
            self.can_add(order),
        ensures
            self.add_order(handle, order).consistent(),
            self.order_count < u64::MAX,
    {
        let i = self.price_to_idx(order.price)->0;
        let after = self.add_order(handle, order);
        self.lemma_idx_price(order.price);
        self.lemma_count_bound();
        lemma_sums_update(self.levels, i, after.levels[i]);
        assert forall|k: int| 0 <= k < MAX_LEVELS
            implies ((#[trigger] after.levels[k]) matches Some(level) ==> level.handles.len()
            <= MAX_ORDERS_PER_LEVEL && level.handles.len() > 0
            && after.base_price.0 + k * Price::TICK_SIZE <= u64::MAX) by {
            if k != i {
                assert(after.levels[k] == self.levels[k]);
            }
        }
        assert forall|k: int| 0 <= k < MAX_LEVELS && k != i implies after.occupied(k)
            == self.occupied(k) by {
            assert(after.levels[k] == self.levels[k]);
        }
        assert(after.occupied(i));
        match self.best_idx {
            Some(b) => {
                assert forall|k: int|
                    0 <= k < MAX_LEVELS && is_better(
                        after.side,
                        k,
                        after.best_idx->0 as int,
                    ) implies !#[trigger] after.occupied(k) by {
                    assert(!self.occupied(k));
                }
                assert(self.occupied(b as int));
            },
            None => {
                assert forall|k: int| 0 <= k < MAX_LEVELS && k != i
                    implies !#[trigger] after.occupied(k) by {
                    assert(!self.occupied(k));
                }
            },
        }
    }

    /// An execution against the front of the best level keeps a consistent
    /// side consistent. Only the best level changes: it loses its front
    /// handle if the maker is done, and is released if that empties it.
    pub proof fn lemma_after_fill(self, qty: Quantity, maker_done: bool)
        requires
            self.consistent(),
            self.best_idx is Some,
        ensures
            self.after_fill(qty, maker_done).consistent(),
            self.after_fill(qty, maker_done).side == self.side,
            self.after_fill(qty, maker_done).base_price == self.base_price,
            self.best_level() is Some,
            self.best_level()->0.handles.len() > 0,
            forall|i: int|
                0 <= i < MAX_LEVELS && i != self.best_idx->0 ==> #[trigger] self.after_fill(
                    qty,
                    maker_done,
                ).levels[i] == self.levels[i],
            self.after_fill(qty, maker_done).levels[self.best_idx->0 as int] == (if maker_done
                && self.best_level()->0.handles.len() == 1 {
                None
            } else if maker_done {
                Some(self.best_level()->0.reduce_qty(qty).pop_front())
            } else {
                Some(self.best_level()->0.reduce_qty(qty))
            }),
    {
        let b = self.best_idx->0 as int;
        assert(self.occupied(b));
        let level = self.levels[b]->0;
        let level2 = if maker_done {
            level.reduce_qty(qty).pop_front()
        } else {
            level.reduce_qty(qty)
        };
        let mid = if maker_done {
            self.with_level(b, level2).decrement_order_count().reduce_qty(qty)
        } else {
            self.with_level(b, level2).reduce_qty(qty)
        };
        let after = mid.find_next_best();
        assert(after == self.after_fill(qty, maker_done));
        lemma_sums_update(self.levels, b, Some(level2));
        assert forall|k: int| 0 <= k < MAX_LEVELS
            implies ((#[trigger] mid.levels[k]) matches Some(lv) ==> lv.handles.len()
            <= MAX_ORDERS_PER_LEVEL && mid.base_price.0 + k * Price::TICK_SIZE
            <= u64::MAX) by {
            if k != b {
                assert(mid.levels[k] == self.levels[k]);
            } else {
                assert(self.levels[k] is Some);
            }
        }
        assert forall|k: int| 0 <= k < MAX_LEVELS && k != b implies mid.occupied(k)
            == self.occupied(k) by {
            assert(mid.levels[k] == self.levels[k]);
        }
        assert(mid.best_covers()) by {
            assert forall|k: int|
                0 <= k < MAX_LEVELS && is_better(mid.side, k, b)
                    implies !#[trigger] mid.occupied(k) by {
                assert(!self.occupied(k));
            }
        }
        mid.lemma_find_next_best();
        assert(mid.count_exact());
        assert forall|k: int| 0 <= k < MAX_LEVELS
            implies ((#[trigger] after.levels[k]) matches Some(lv) ==> lv.handles.len() > 0) by {
            if k != b {
                assert(after.levels[k] == mid.levels[k]);
                assert(mid.levels[k] == self.levels[k]);
            }
        }
        assert forall|i: int| 0 <= i < MAX_LEVELS && i != b implies #[trigger] after.levels[i]
            == self.levels[i] by {
            assert(after.levels[i] == mid.levels[i]);
            assert(mid.levels[i] == self.levels[i]);
        }
    }

    /// Taking a queued order out keeps a consistent side consistent. Only
    /// the level of the order changes: it loses the handle, and is released
    /// if that empties it.
    pub proof fn lemma_remove_order(self, handle: OrderHandle, price: Price, qty: Quantity)
        requires
            self.consistent(),
            self.queues(handle, price),
        ensures
            self.remove_order(handle, price, qty).consistent(),
            self.remove_order(handle, price, qty).side == self.side,
            self.remove_order(handle, price, qty).base_price == self.base_price,
            forall|i: int|
                0 <= i < MAX_LEVELS && Some(i) != self.price_to_idx(price)
                    ==> #[trigger] self.remove_order(handle, price, qty).levels[i]
                    == self.levels[i],
            self.remove_order(handle, price, qty).levels[self.price_to_idx(price)->0] == (
            if self.level_at_price(price)->0.handles.len() == 1 {
                None
            } else {
                Some(self.level_at_price(price)->0.remove(handle).reduce_qty(qty))
            }),
    {
        let i = self.price_to_idx(price)->0;
        let level = self.levels[i]->0;
        let level2 = level.remove(handle).reduce_qty(qty);
        crate::level::lemma_first_index(level.handles, handle);
        let slot = if level2.handles.len() == 0 {
            None
        } else {
            Some(level2)
        };
        let side = SideView { levels: self.levels.update(i, slot), ..self };
        let after = self.remove_order(handle, price, qty);
        lemma_sums_update(self.levels, i, slot);
        assert(after.levels == side.levels);
        assert forall|k: int| 0 <= k < MAX_LEVELS && k != i implies side.occupied(k)
            == self.occupied(k) by {
            assert(side.levels[k] == self.levels[k]);
        }
        assert forall|k: int| 0 <= k < MAX_LEVELS
            implies ((#[trigger] after.levels[k]) matches Some(lv) ==> lv.handles.len()
            <= MAX_ORDERS_PER_LEVEL && lv.handles.len() > 0
            && after.base_price.0 + k * Price::TICK_SIZE <= u64::MAX) by {
            if k != i {
                assert(after.levels[k] == self.levels[k]);
            } else {
                assert(self.levels[k] is Some);
            }
        }
        if self.best_idx == Some(i as u32) && !side.occupied(i) {
            match self.side {
                Side::Buy => {
                    lemma_scan_down(side.levels, i);
                },
                Side::Sell => {
                    lemma_scan_up(side.levels, i + 1);
                },
            }
            match after.best_idx {
                Some(j) => {
                    assert(side.occupied(j as int));
                    assert(side.levels[j as int] is Some);
                    assert forall|k: int|
                        0 <= k < MAX_LEVELS && is_better(
                            after.side,
                            k,
                            j as int,
                        ) implies !#[trigger] after.occupied(k) by {
                        if is_better(self.side, k, i) {
                            assert(!self.occupied(k));
                        } else if k != i {
                            assert(level_len(side.levels[k]) == 0);
                        }
                    }
                },
                None => {
                    assert forall|k: int| 0 <= k < MAX_LEVELS
                        implies !#[trigger] after.occupied(k) by {
                        if is_better(self.side, k, i) {
                            assert(!self.occupied(k));
                        } else if k != i {
                            assert(level_len(side.levels[k]) == 0);
                        }
                    }
                },
            }
        } else {
            match self.best_idx {
                Some(b) => {
                    assert(self.occupied(b as int));
                    assert forall|k: int|
                        0 <= k < MAX_LEVELS && is_better(
                            after.side,
                            k,
                            b as int,
                        ) implies !#[trigger] after.occupied(k) by {
                        assert(!self.occupied(k));
                    }
                },
                None => {
                    assert(!self.occupied(i));
                },
            }
        }
    }

    /// The number of queued handles is bounded by the size of the array.
    pub proof fn lemma_count_bound(self)
        requires
            self.wf(),
        ensures
            count_orders(self.levels) <= MAX_LEVELS * MAX_ORDERS_PER_LEVEL,
    {
        lemma_count_orders_bound(self.levels);
    }

    /// Moving the best index on restores `best_live`, keeps `best_covers`,
    /// and keeps everything else that consistency asks for.
    pub proof fn lemma_find_next_best(self)
        requires
            self.wf(),
            self.best_covers(),
        ensures
            self.find_next_best().wf(),
            self.find_next_best().best_covers(),
            self.find_next_best().best_live(),
            count_orders(self.find_next_best().levels) == count_orders(self.levels),
            sum_qty(self.find_next_best().levels) + level_qty(self.best_level())
                == sum_qty(self.levels) || self.find_next_best() == self,
            forall|i: int|
                0 <= i < MAX_LEVELS && self.best_idx != Some(i as u32)
                    ==> #[trigger] self.find_next_best().levels[i] == self.levels[i],
    {
        let after = self.find_next_best();
        match self.best_idx {
            None => {},
            Some(current) => {
                let c = current as int;
                if !self.occupied(c) {
                    lemma_sums_update(self.levels, c, None);
                    assert forall|k: int| 0 <= k < MAX_LEVELS implies after.occupied(k)
                        == self.occupied(k) by {
                        if k != c {
                            assert(after.levels[k] == self.levels[k]);
                        }
                    }
                    match self.side {
                        Side::Buy => {
                            lemma_scan_down(self.levels, c);
                        },
                        Side::Sell => {
                            lemma_scan_up(self.levels, c + 1);
                        },
                    }
                    match after.best_idx {
                        Some(j) => {
                            assert(self.occupied(j as int));
                            assert(self.levels[j as int] is Some);
                            assert forall|k: int|
                                0 <= k < MAX_LEVELS && is_better(
                                    after.side,
                                    k,
                                    j as int,
                                ) implies !#[trigger] after.occupied(k) by {
                                if is_better(self.side, k, c) {
                                    assert(!self.occupied(k));
                                } else if k != c {
                                    assert(level_len(self.levels[k]) == 0);
                                }
                            }
                        },
                        None => {
                            assert forall|k: int| 0 <= k < MAX_LEVELS
                                implies !#[trigger] after.occupied(k) by {
                                if is_better(self.side, k, c) {
                                    assert(!self.occupied(k));
                                } else if k != c {
                                    assert(level_len(self.levels[k]) == 0);
                                }
                            }
                        },
                    }
                    assert forall|k: int| 0 <= k < MAX_LEVELS implies ((
                    #[trigger] after.levels[k]) matches Some(level) ==> level.handles.len()
                        <= MAX_ORDERS_PER_LEVEL && after.base_price.0 + k * Price::TICK_SIZE
                        <= u64::MAX) by {
                        if k != c {
                            assert(after.levels[k] == self.levels[k]);
                        }
                    }
                }
            },
        }
    }
}

/// The model of a slot of the level array.
pub open spec fn slot_view(slot: Option<PriceLevel>) -> Option<LevelView> {
    match slot {
        Some(level) => Some(level@),
        None => None,
    }
}

/// One side of the order book (bids or asks).
pub struct BookSide {
    /// Price levels indexed by tick offset from the base price.
    levels: Vec<Option<PriceLevel>>,
    /// Best price level index (`None` if the side is empty).
    best_idx: Option<u32>,
    /// Which side this is.
    side: Side,
    /// Base price for indexing (lowest price in range).
    base_price: Price,
    /// Total order count on this side.
    order_count: u64,
    /// Total quantity on this side.
    total_qty: Quantity,
}

impl View for BookSide {
    type V = SideView;

    closed spec fn view(&self) -> SideView {
        SideView {
            side: self.side,
            base_price: self.base_price,
            levels: Seq::new(self.levels@.len(), |i: int| slot_view(self.levels@[i])),
            best_idx: self.best_idx,
            order_count: self.order_count,
            total_qty: self.total_qty,
        }
    }
}

impl BookSide {
    /// Every created level is itself well formed.
    pub closed spec fn repr_ok(&self) -> bool {
        forall|i: int|
            0 <= i < self.levels@.len() ==> ((#[trigger] self.levels@[i]) matches Some(level)
                ==> level.wf())
    }

    /// The structural invariant of a side.
    pub open spec fn wf(&self) -> bool {
        self.repr_ok() && self@.wf()
    }

    /// Create a new, empty book side.
    ///
    /// `base_price` is the lowest price that the side can hold.
    pub fn new(side: Side, base_price: Price) -> (book_side: Self)
        ensures
            book_side.wf(),
            book_side@ == SideView::empty(side, base_price),
    {
        let mut levels: Vec<Option<PriceLevel>> = Vec::with_capacity(MAX_LEVELS);
        let mut i: usize = 0;
        while i < MAX_LEVELS
            invariant
                i <= MAX_LEVELS,
                levels@.len() == i,
                forall|k: int| 0 <= k < i ==> levels@[k] is None,
            decreases MAX_LEVELS - i,
        {
            levels.push(None);
            i = i + 1;
        }
        let book_side = BookSide {
            levels,
            best_idx: None,
            side,
            base_price,
            order_count: 0,
            total_qty: Quantity(0),
        };
        assert(book_side@.levels =~= SideView::empty(side, base_price).levels);
        book_side
    }

    /// Convert a price to a level index.
    fn price_to_idx(&self, price: Price) -> (idx: Option<usize>)
        ensures
            match idx {
                Some(i) => self@.price_to_idx(price) == Some(i as int),
                None => self@.price_to_idx(price) is None,
            },
    {
        if price.0 < self.base_price.0 {
            return None;
        }
        let offset = price.0 - self.base_price.0;
        let idx = offset / Price::TICK_SIZE;
        if idx < MAX_LEVELS as u64 {
            Some(idx as usize)
        } else {
            None
        }
    }

    /// Convert a level index back to a price.
    fn idx_to_price(&self, idx: usize) -> (price: Price)
        requires
            self.base_price.0 + idx * Price::TICK_SIZE <= u64::MAX,
        ensures
            price == self@.idx_to_price(idx as int),
    {
        Price(self.base_price.0 + (idx as u64 * Price::TICK_SIZE))
    }

    /// Whether the level at `idx` queues at least one handle.
    fn is_occupied(&self, idx: usize) -> (occupied: bool)
        requires
            self.wf(),
            idx < MAX_LEVELS,
        ensures
            occupied == self@.occupied(idx as int),
    {
        match &self.levels[idx] {
            Some(level) => !level.is_empty(),
            None => false,
        }
    }

    /// Whether `price` has a level index on this side: it is not below the
    /// base price and not `MAX_LEVELS` ticks or more above it.
    pub fn in_range(&self, price: Price) -> (inside: bool)
        ensures
            inside == (self@.price_to_idx(price) is Some),
    {
        self.price_to_idx(price).is_some()
    }

    /// Add an order to the level at its price.
    ///
    /// Returns `false`, changing nothing, if the price is outside the range
    /// of the array or the level is full.
    pub fn add_order(&mut self, handle: OrderHandle, order: &Order) -> (added: bool)
        requires
            old(self).wf(),
            old(self)@.order_count < u64::MAX,
        ensures
            final(self).wf(),
            added == old(self)@.can_add(*order),
            added ==> final(self)@ == old(self)@.add_order(handle, *order),
            !added ==> final(self)@ == old(self)@,
    {
        let idx = match self.price_to_idx(order.price) {
            Some(i) => i,
            None => {
                return false;
            },
        };
        proof {
            self@.lemma_idx_price(order.price);
        }
        if self.levels[idx].is_none() {
            self.levels[idx] = Some(PriceLevel::new());
        }
        let ghost created = *self;
        assert(created@.levels =~= old(self)@.levels.update(
            idx as int,
            Some(old(self)@.level_or_new(idx as int)),
        ));
        let pushed = match self.levels[idx].as_mut() {
            Some(level) => {
                proof {
                    level.lemma_bounded();
                }
                let pushed = level.push_back(handle, order.remaining_qty);
                proof {
                    level.lemma_bounded();
                }
                pushed
            },
            None => false,
        };
        if !pushed {
            assert(self@.levels =~= old(self)@.levels);
            return false;
        }
        self.order_count = self.order_count + 1;
        self.total_qty = self.total_qty.saturating_add(order.remaining_qty);
        self.update_best_after_add(idx);
        proof {
            let expect = old(self)@.add_order(handle, *order);
            assert(self@.levels =~= expect.levels);
            assert forall|k: int| 0 <= k < MAX_LEVELS
                implies ((#[trigger] self@.levels[k]) matches Some(level)
                ==> level.handles.len() <= MAX_ORDERS_PER_LEVEL && self@.base_price.0 + k
                * Price::TICK_SIZE <= u64::MAX) by {
                if k != idx {
                    assert(self@.levels[k] == old(self)@.levels[k]);
                }
            }
        }
        true
    }

    /// Update the best index after an order has joined the level at
    /// `new_idx`.
    fn update_best_after_add(&mut self, new_idx: usize)
        requires
            new_idx < MAX_LEVELS,
        ensures
            final(self).best_idx == old(self)@.best_after_add(new_idx as int),
            final(self).levels == old(self).levels,
            final(self).side == old(self).side,
            final(self).base_price == old(self).base_price,
            final(self).order_count == old(self).order_count,
            final(self).total_qty == old(self).total_qty,
    {
        match self.best_idx {
            None => {
                self.best_idx = Some(new_idx as u32);
            },
            Some(current) => {
                let better = match self.side {
                    Side::Buy => new_idx > current as usize,
                    Side::Sell => new_idx < current as usize,
                };
                if better {
                    self.best_idx = Some(new_idx as u32);
                }
            },
        }
    }

    /// Get the best price level for matching.
    pub fn best_level(&self) -> (level: Option<&PriceLevel>)
        requires
            self.wf(),
        ensures
            match self@.best_level() {
                Some(model) => level matches Some(l) && l@ == model && l.wf(),
                None => level is None,
            },
    {
        match self.best_idx {
            Some(idx) => self.levels[idx as usize].as_ref(),
            None => None,
        }
    }

    /// Get the best price level for matching, for modification.
    ///
    /// The side's cached counters are not touched: the caller keeps them in
    /// step with what it does to the level.
    pub fn best_level_mut(&mut self) -> (level: Option<&mut PriceLevel>)
        requires
            old(self).wf(),
        ensures
            match old(self)@.best_level() {
                Some(model) => level matches Some(l) && l@ == model && l.wf() && final(self)@
                    == old(self)@.with_level(old(self)@.best_idx->0 as int, final(l)@)
                        && (final(l).wf() ==> final(self).wf()),
                None => level is None && final(self)@ == old(self)@ && final(self).wf(),
            },
    {
        match self.best_idx {
            Some(idx) => self.level_mut(idx as usize),
            None => None,
        }
    }

    /// Get the level in slot `idx`, for modification.
    fn level_mut(&mut self, idx: usize) -> (level: Option<&mut PriceLevel>)
        requires
            old(self).wf(),
            idx < MAX_LEVELS,
        ensures
            match old(self)@.levels[idx as int] {
                Some(model) => level matches Some(l) && l@ == model && l.wf() && final(self)@
                    == old(self)@.with_level(idx as int, final(l)@) && (final(l).wf()
                        ==> final(self).wf()),
                None => level is None && final(self)@ == old(self)@ && final(self).wf(),
            },
    {
        let ghost before = *self;
        let level = self.levels[idx].as_mut();
        proof {
            let after = after_borrow(*self);
            if level is Some {
                assert(after@.levels =~= before@.levels.update(
                    idx as int,
                    Some(final(level->0)@),
                ));
                assert(final(level->0).wf() ==> after.wf()) by {
                    if final(level->0).wf() {
                        final(level->0).lemma_bounded();
                        assert forall|k: int| 0 <= k < MAX_LEVELS implies ((
                        #[trigger] after@.levels[k]) matches Some(lv) ==> lv.handles.len()
                            <= MAX_ORDERS_PER_LEVEL && after@.base_price.0 + k * Price::TICK_SIZE
                            <= u64::MAX) by {
                            if k != idx {
                                assert(after@.levels[k] == before@.levels[k]);
                            } else {
                                assert(before@.levels[k] is Some);
                            }
                        }
                    }
                }
            } else {
                assert(after@.levels =~= before@.levels);
            }
        }
        level
    }

    /// Get the best price.
    pub fn best_price(&self) -> (price: Option<Price>)
        requires
            self.wf(),
        ensures
            price == self@.best_price(),
    {
        match self.best_idx {
            Some(idx) => Some(self.idx_to_price(idx as usize)),
            None => None,
        }
    }

    /// Check if an incoming order at `price` on `incoming_side` would cross
    /// the best resting price of this side.
    pub fn would_match(&self, price: Price, incoming_side: Side) -> (crosses: bool)
        requires
            self.wf(),
        ensures
            crosses == self@.would_match(price, incoming_side),
    {
        match self.best_idx {
            Some(best_idx) => {
                let best_price = self.idx_to_price(best_idx as usize);
                match incoming_side {
                    Side::Buy => price.0 >= best_price.0,
                    Side::Sell => price.0 <= best_price.0,
                }
            },
            None => false,
        }
    }

    /// Find the nearest occupied level that is worse than `current`.
    fn next_best(&self, current: usize) -> (next: Option<u32>)
        requires
            self.wf(),
            current < MAX_LEVELS,
        ensures
            next == self@.next_best(current as int),
    {
        let mut found: Option<u32> = None;
        match self.side {
            Side::Buy => {
                let mut idx: usize = current;
                while idx > 0 && found.is_none()
                    invariant
                        self.wf(),
                        idx <= current < MAX_LEVELS,
                        match found {
                            Some(j) => scan_down(self@.levels, current as int) == Some(j),
                            None => scan_down(self@.levels, current as int) == scan_down(
                                self@.levels,
                                idx as int,
                            ),
                        },
                    decreases idx,
                {
                    idx = idx - 1;
                    if self.is_occupied(idx) {
                        found = Some(idx as u32);
                    }
                }
            },
            Side::Sell => {
                let mut idx: usize = current + 1;
                while idx < MAX_LEVELS && found.is_none()
                    invariant
                        self.wf(),
                        current < idx <= MAX_LEVELS,
                        match found {
                            Some(j) => scan_up(self@.levels, current + 1) == Some(j),
                            None => scan_up(self@.levels, current + 1) == scan_up(
                                self@.levels,
                                idx as int,
                            ),
                        },
                    decreases MAX_LEVELS - idx,
                {
                    if self.is_occupied(idx) {
                        found = Some(idx as u32);
                    }
                    idx = idx + 1;
                }
            },
        }
        found
    }

    /// Move the best index on after the best level has been exhausted.
    ///
    /// While the best level still queues an order nothing changes. Otherwise
    /// its slot is released and the search runs towards worse prices: down
    /// for bids, up for asks. The first occupied level found becomes the
    /// best; if there is none the side is empty.
    pub fn find_next_best(&mut self)
        requires
            old(self).wf(),
        ensures
            final(self).wf(),
            final(self)@ == old(self)@.find_next_best(),
    {
        let current = match self.best_idx {
            Some(idx) => idx as usize,
            None => {
                return ;
            },
        };
        if self.is_occupied(current) {
            return ;
        }
        self.levels[current] = None;
        assert(self@.levels =~= old(self)@.levels.update(current as int, None));
        assert(self.wf()) by {
            assert forall|k: int| 0 <= k < MAX_LEVELS
                implies ((#[trigger] self@.levels[k]) matches Some(lv) ==> lv.handles.len()
                <= MAX_ORDERS_PER_LEVEL && self@.base_price.0 + k
                * Price::TICK_SIZE <= u64::MAX) by {
                if k != current {
                    assert(self@.levels[k] == old(self)@.levels[k]);
                }
            }
        }
        proof {
            match self.side {
                Side::Buy => {
                    lemma_scan_down(self@.levels, current as int);
                    lemma_scan_same(self@.levels, old(self)@.levels, current as int);
                },
                Side::Sell => {
                    lemma_scan_up(self@.levels, current + 1);
                    lemma_scan_same(self@.levels, old(self)@.levels, current as int);
                },
            }
        }
        let next = self.next_best(current);
        self.best_idx = next;
        proof {
            if next is Some {
                assert(self@.levels[next->0 as int] is Some);
            }
        }
    }

    /// Get the level at a specific price, for modification.
    ///
    /// The side's cached counters are not touched: the caller keeps them in
    /// step with what it does to the level.
    pub fn level_at_price_mut(&mut self, price: Price) -> (level: Option<&mut PriceLevel>)
        requires
            old(self).wf(),
        ensures
            match old(self)@.level_at_price(price) {
                Some(model) => level matches Some(l) && l@ == model && l.wf() && final(self)@
                    == old(self)@.with_level(old(self)@.price_to_idx(price)->0, final(l)@)
                        && (final(l).wf() ==> final(self).wf()),
                None => level is None && final(self)@ == old(self)@ && final(self).wf(),
            },
    {
        match self.price_to_idx(price) {
            Some(idx) => self.level_mut(idx),
            None => None,
        }
    }

    /// Take the order under `handle`, resting at `price` with quantity `qty`,
    /// out of its level. A level left empty is released and the best index
    /// moves on if it pointed there.
    ///
    /// Returns `false`, changing nothing, if the handle is not queued at that
    /// price.
    pub fn remove_order(&mut self, handle: OrderHandle, price: Price, qty: Quantity) -> (removed:
        bool)
        requires
            old(self).wf(),
        ensures
            final(self).wf(),
            removed == old(self)@.queues(handle, price),
            final(self)@ == old(self)@.remove_order(handle, price, qty),
    {
        let idx = match self.price_to_idx(price) {
            Some(i) => i,
            None => {
                return false;
            },
        };
        let mut removed = false;
        let mut emptied = false;
        match self.level_mut(idx) {
            Some(level) => {
                if level.remove(handle) {
                    level.reduce_qty(qty);
                    removed = true;
                    emptied = level.is_empty();
                }
            },
            None => {},
        }
        if !removed {
            assert(self@.levels =~= old(self)@.levels);
            return false;
        }
        self.total_qty = self.total_qty.saturating_sub(qty);
        self.order_count = self.order_count.saturating_sub(1);
        let ghost mid = self@;
        if emptied {
            self.levels[idx] = None;
            proof {
                assert(self@.levels =~= mid.levels.update(idx as int, None));
                assert(self@.levels =~= old(self)@.levels.update(idx as int, None));
                assert forall|k: int| 0 <= k < MAX_LEVELS
                    implies ((#[trigger] self@.levels[k]) matches Some(lv) ==> lv.handles.len()
                    <= MAX_ORDERS_PER_LEVEL && self@.base_price.0 + k
                    * Price::TICK_SIZE <= u64::MAX) by {
                    if k != idx {
                        assert(self@.levels[k] == old(self)@.levels[k]);
                    }
                }
            }
            if self.best_idx == Some(idx as u32) {
                proof {
                    match self.side {
                        Side::Buy => {
                            lemma_scan_down(self@.levels, idx as int);
                        },
                        Side::Sell => {
                            lemma_scan_up(self@.levels, idx + 1);
                        },
                    }
                }
                let next = self.next_best(idx);
                self.best_idx = next;
                proof {
                    if next is Some {
                        assert(self@.levels[next->0 as int] is Some);
                    }
                }
            }
        }
        true
    }

    /// Check if the side is empty.
    pub fn is_empty(&self) -> (empty: bool)
        ensures
            empty == (self@.best_idx is None),
    {
        self.best_idx.is_none()
    }

    /// Get the order count.
    pub fn order_count(&self) -> (count: u64)
        ensures
            count == self@.order_count,
    {
        self.order_count
    }

    /// Get the total quantity.
    pub fn total_qty(&self) -> (qty: Quantity)
        ensures
            qty == self@.total_qty,
    {
        self.total_qty
    }

    /// Reduce the total quantity (after a fill), clamping at zero.
    pub fn reduce_qty(&mut self, qty: Quantity)
        ensures
            final(self)@ == old(self)@.reduce_qty(qty),
            old(self).wf() ==> final(self).wf(),
    {
        self.total_qty = self.total_qty.saturating_sub(qty);
    }

    /// Decrement the order count, clamping at zero.
    pub fn decrement_order_count(&mut self)
        ensures
            final(self)@ == old(self)@.decrement_order_count(),
            old(self).wf() ==> final(self).wf(),
    {
        self.order_count = self.order_count.saturating_sub(1);
    }
}

/// The nearest occupied worse index does not depend on the slot that the
/// search starts from.
pub proof fn lemma_next_best_ignores_slot(
    a: Seq<Option<LevelView>>,
    b: Seq<Option<LevelView>>,
    side: Side,
    current: int,
)
    requires
        a.len() == b.len(),
        0 <= current < a.len(),
        forall|i: int| 0 <= i < a.len() && i != current ==> a[i] == b[i],
    ensures
        (match side {
            Side::Buy => scan_down(a, current) == scan_down(b, current),
            Side::Sell => scan_up(a, current + 1) == scan_up(b, current + 1),
        }),
{
    lemma_scan_same(a, b, current);
}

/// Scanning for the next best index does not look at the slot it starts
/// from.
proof fn lemma_scan_same(a: Seq<Option<LevelView>>, b: Seq<Option<LevelView>>, current: int)
    requires
        a.len() == b.len(),
        0 <= current < a.len(),
        forall|i: int| 0 <= i < a.len() && i != current ==> a[i] == b[i],
    ensures
        scan_down(a, current) == scan_down(b, current),
        scan_up(a, current + 1) == scan_up(b, current + 1),
{
    lemma_scan_down_same(a, b, current, current);
    lemma_scan_up_same(a, b, current, current + 1);
}

proof fn lemma_scan_down_same(
    a: Seq<Option<LevelView>>,
    b: Seq<Option<LevelView>>,
    current: int,
    bound: int,
)
    requires
        a.len() == b.len(),
        0 <= bound <= current < a.len(),
        forall|i: int| 0 <= i < a.len() && i != current ==> a[i] == b[i],
    ensures
        scan_down(a, bound) == scan_down(b, bound),
    decreases bound,
{
    if bound > 0 {
        lemma_scan_down_same(a, b, current, bound - 1);
    }
}

proof fn lemma_scan_up_same(
    a: Seq<Option<LevelView>>,
    b: Seq<Option<LevelView>>,
    current: int,
    from: int,
)
    requires
        a.len() == b.len(),
        0 <= current < from <= a.len(),
        forall|i: int| 0 <= i < a.len() && i != current ==> a[i] == b[i],
    ensures
        scan_up(a, from) == scan_up(b, from),
    decreases a.len() - from,
{
    if from < a.len() {
        lemma_scan_up_same(a, b, current, from + 1);
    }
}

/// Mathematical model of an order book.
pub struct BookView {
    /// The bid side.
    pub bids: SideView,
    /// The ask side.
    pub asks: SideView,
    /// The sequence counter.
    pub sequence: u64,
}

impl BookView {
    /// An empty book over `base_price`.
    pub open spec fn empty(base_price: Price) -> BookView {
        BookView {
            bids: SideView::empty(Side::Buy, base_price),
            asks: SideView::empty(Side::Sell, base_price),
            sequence: 0,
        }
    }

    /// Both sides are well formed, and each is tagged with its own side.
    pub open spec fn wf(self) -> bool {
        &&& self.bids.wf()
        &&& self.asks.wf()
        &&& self.bids.side == Side::Buy
        &&& self.asks.side == Side::Sell
    }

    /// The model of the given side.
    pub open spec fn side(self, side: Side) -> SideView {
        match side {
            Side::Buy => self.bids,
            Side::Sell => self.asks,
        }
    }

    /// This book with the given side replaced.
    pub open spec fn with_side(self, side: Side, view: SideView) -> BookView {
        match side {
            Side::Buy => BookView { bids: view, ..self },
            Side::Sell => BookView { asks: view, ..self },
        }
    }

    /// The difference between best ask and best bid, where both exist and
    /// the ask is the higher.
    pub open spec fn spread(self) -> Option<Price> {
        match (self.bids.best_price(), self.asks.best_price()) {
            (Some(bid), Some(ask)) => if ask.0 > bid.0 {
                Some(Price((ask.0 - bid.0) as u64))
            } else {
                None
            },
            _ => None,
        }
    }

    /// The mean of best bid and best ask, rounded down; the one that exists
    /// where only one does.
    pub open spec fn midpoint(self) -> Option<Price> {
        match (self.bids.best_price(), self.asks.best_price()) {
            (Some(bid), Some(ask)) => Some(Price(((bid.0 + ask.0) / 2) as u64)),
            (Some(bid), None) => Some(bid),
            (None, Some(ask)) => Some(ask),
            (None, None) => None,
        }
    }
}

/// The complete order book for a single symbol.
pub struct OrderBook {
    /// Bid side (buyers).
    pub bids: BookSide,
    /// Ask side (sellers).
    pub asks: BookSide,
    /// Sequence number, advanced by `next_sequence`.
    sequence: u64,
}

impl View for OrderBook {
    type V = BookView;

    closed spec fn view(&self) -> BookView {
        BookView { bids: self.bids@, asks: self.asks@, sequence: self.sequence }
    }
}

impl OrderBook {
    /// Both sides keep their representation invariant.
    pub closed spec fn repr_ok(&self) -> bool {
        self.bids.repr_ok() && self.asks.repr_ok()
    }

    /// The structural invariant of a book.
    pub open spec fn wf(&self) -> bool {
        self.repr_ok() && self@.wf()
    }

    /// Create a new, empty order book.
    ///
    /// `base_price` is the lowest price that the book can hold.
    pub fn new(base_price: Price) -> (book: Self)
        ensures
            book.wf(),
            book@ == BookView::empty(base_price),
    {
        OrderBook {
            bids: BookSide::new(Side::Buy, base_price),
            asks: BookSide::new(Side::Sell, base_price),
            sequence: 0,
        }
    }

    /// Get the current sequence number.
    pub fn sequence(&self) -> (seq: u64)
        ensures
            seq == self@.sequence,
    {
        self.sequence
    }

    /// Increment and return the sequence number.
    pub fn next_sequence(&mut self) -> (seq: u64)
        requires
            old(self)@.sequence < u64::MAX,
        ensures
            seq == old(self)@.sequence + 1,
            final(self)@ == (BookView { sequence: seq, ..old(self)@ }),
            old(self).wf() ==> final(self).wf(),
    {
        self.sequence = self.sequence + 1;
        self.sequence
    }

    /// Get the best bid price.
    pub fn best_bid(&self) -> (price: Option<Price>)
        requires
            self.wf(),
        ensures
            price == self@.bids.best_price(),
    {
        self.bids.best_price()
    }

    /// Get the best ask price.
    pub fn best_ask(&self) -> (price: Option<Price>)
        requires
            self.wf(),
        ensures
            price == self@.asks.best_price(),
    {
        self.asks.best_price()
    }

    /// Get the spread (best ask minus best bid).
    pub fn spread(&self) -> (spread: Option<Price>)
        requires
            self.wf(),
        ensures
            spread == self@.spread(),
    {
        match (self.best_bid(), self.best_ask()) {
            (Some(bid), Some(ask)) => {
                if ask.0 > bid.0 {
                    Some(Price(ask.0 - bid.0))
                } else {
                    None
                }
            },
            _ => None,
        }
    }

    /// Get the midpoint price.
    pub fn midpoint(&self) -> (mid: Option<Price>)
        requires
            self.wf(),
        ensures
            mid == self@.midpoint(),
    {
        match (self.best_bid(), self.best_ask()) {
            (Some(bid), Some(ask)) => {
                let carry = (bid.0 % 2 + ask.0 % 2) / 2;
                Some(Price(bid.0 / 2 + ask.0 / 2 + carry))
            },
            (Some(bid), None) => Some(bid),
            (None, Some(ask)) => Some(ask),
            (None, None) => None,
        }
    }

    /// Check if the book is empty.
    pub fn is_empty(&self) -> (empty: bool)
        ensures
            empty == (self@.bids.best_idx is None && self@.asks.best_idx is None),
    {
        self.bids.is_empty() && self.asks.is_empty()
    }

    /// Get the given side, for modification.
    pub fn side_mut(&mut self, side: Side) -> (book_side: &mut BookSide)
        ensures
            book_side@ == old(self)@.side(side),
            old(self).wf() ==> book_side.wf(),
            final(self)@ == old(self)@.with_side(side, final(book_side)@),
            old(self).wf() && final(book_side).wf() && final(book_side)@.side == side
                ==> final(self).wf(),
    {
        match side {
            Side::Buy => &mut self.bids,
            Side::Sell => &mut self.asks,
        }
    }

    /// Get the given side.
    pub fn side(&self, side: Side) -> (book_side: &BookSide)
        ensures
            book_side@ == self@.side(side),
            self.wf() ==> book_side.wf(),
    {
        match side {
            Side::Buy => &self.bids,
            Side::Sell => &self.asks,
        }
    }

    /// Get the side opposite to `side` (the one an order on `side` matches
    /// against), for modification.
    pub fn opposite_side_mut(&mut self, side: Side) -> (book_side: &mut BookSide)
        ensures
            book_side@ == old(self)@.side(side.opposite()),
            old(self).wf() ==> book_side.wf(),
            final(self)@ == old(self)@.with_side(side.opposite(), final(book_side)@),
            old(self).wf() && final(book_side).wf() && final(book_side)@.side == side.opposite()
                ==> final(self).wf(),
    {
        match side {
            Side::Buy => &mut self.asks,
            Side::Sell => &mut self.bids,
        }
    }
}

/// Slots that cache no quantity sum to zero.
proof fn lemma_sum_qty_zero(levels: Seq<Option<LevelView>>)
    requires
        forall|i: int| 0 <= i < levels.len() ==> level_qty(#[trigger] levels[i]) == 0,
    ensures
        sum_qty(levels) == 0,
    decreases levels.len(),
{
    if levels.len() > 0 {
        let front = levels.drop_last();
        assert forall|i: int| 0 <= i < front.len() implies level_qty(#[trigger] front[i]) == 0 by {
            assert(front[i] == levels[i]);
        }
        lemma_sum_qty_zero(front);
        assert(levels.last() == levels[levels.len() - 1]);
    }
}

/// With at most `MAX_ORDERS_PER_LEVEL` handles per slot, the count is at
/// most that times the number of slots.
proof fn lemma_count_orders_bound(levels: Seq<Option<LevelView>>)
    requires
        forall|i: int|
            0 <= i < levels.len() ==> ((#[trigger] levels[i]) matches Some(level)
                ==> level.handles.len() <= MAX_ORDERS_PER_LEVEL),
    ensures
        count_orders(levels) <= levels.len() * MAX_ORDERS_PER_LEVEL,
    decreases levels.len(),
{
    if levels.len() > 0 {
        let front = levels.drop_last();
        assert forall|i: int| 0 <= i < front.len()
            implies ((#[trigger] front[i]) matches Some(level) ==> level.handles.len()
            <= MAX_ORDERS_PER_LEVEL) by {
            assert(front[i] == levels[i]);
        }
        lemma_count_orders_bound(front);
        assert(level_len(levels.last()) <= MAX_ORDERS_PER_LEVEL) by {
            assert(levels.last() == levels[levels.len() - 1]);
        }
        assert(levels.len() * MAX_ORDERS_PER_LEVEL == front.len() * MAX_ORDERS_PER_LEVEL
            + MAX_ORDERS_PER_LEVEL) by (nonlinear_arith)
            requires
                front.len() + 1 == levels.len(),
        ;
    }
}

} // verus!
