//! The engine invariant is kept by every step of the model.

use vstd::prelude::*;
use crate::fixed::Price;
use crate::order::{Order, Side, SymbolId};
use crate::pool::{OrderHandle, MAX_POOL_CAPACITY};
use crate::level::{first_index, lemma_first_index};
use crate::book::{SideView, MAX_LEVELS};
use crate::model::EngineView;
use crate::fills::{Fill, fill_total};

verus! {

/// Removing one element from a sequence without duplicates leaves a
/// sequence without duplicates that holds every other element and no
/// longer holds the removed one.
pub proof fn lemma_remove_distinct(s: Seq<OrderHandle>, pos: int)
    requires
        s.no_duplicates(),
        0 <= pos < s.len(),
    ensures
        s.remove(pos).no_duplicates(),
        !s.remove(pos).contains(s[pos]),
        forall|k: int| 0 <= k < s.len() && k != pos ==> s.remove(pos).contains(#[trigger] s[k]),
        forall|k: int|
            0 <= k < s.remove(pos).len() ==> s.contains(#[trigger] s.remove(pos)[k])
                && s.remove(pos)[k] == s[if k < pos {
                k
            } else {
                k + 1
            }],
{
    let r = s.remove(pos);
    assert forall|k: int| 0 <= k < r.len() implies s.contains(#[trigger] r[k]) && r[k] == s[if k
        < pos {
        k
    } else {
        k + 1
    }] by {
        if k < pos {
            assert(r[k] == s[k]);
        } else {
            assert(r[k] == s[k + 1]);
        }
    }
    assert forall|k: int| 0 <= k < s.len() && k != pos implies r.contains(#[trigger] s[k]) by {
        if k < pos {
            assert(r[k] == s[k]);
        } else {
            assert(r[k - 1] == s[k]);
        }
    }
    if r.contains(s[pos]) {
        let k = choose|k: int| 0 <= k < r.len() && r[k] == s[pos];
        assert(r[k] == s[if k < pos {
            k
        } else {
            k + 1
        }]);
    }
}

impl EngineView {
    /// What the invariant says of the next maker: under `wf`, when a taker
    /// can match, the best opposite level exists and its front handle is a
    /// live order of the opposite side with quantity left.
    pub proof fn lemma_front_maker(self, taker: Order)
        requires
            self.wf(),
            self.can_match(taker),
        ensures
            self.makers(taker.side).consistent(),
            self.makers(taker.side).side == taker.side.opposite(),
            self.makers(taker.side).best_idx is Some,
            self.makers(taker.side).best_level() is Some,
            self.makers(taker.side).best_level()->0.handles.len() > 0,
            self.resting_ok(
                taker.side.opposite(),
                self.makers(taker.side).best_idx->0 as int,
                self.front_maker(taker.side),
            ),
            0 < self.next_qty(taker).0 <= taker.remaining_qty.0,
            self.next_fill(taker).quantity == self.next_qty(taker),
            taker.filled_by(self.next_qty(taker)).remaining_qty.0 < taker.remaining_qty.0,
    {
        let ms = taker.side.opposite();
        let side = self.book.side(ms);
        let b = side.best_idx->0 as int;
        assert(side.occupied(b));
        assert(self.has_slot(ms, b, 0));
        assert(self.handle_at(ms, b, 0) == self.front_maker(taker.side));
    }

    /// One execution keeps the invariant and leaves the taker's own side of
    /// the book as it was.
    pub proof fn lemma_match_one(self, taker: Order)
        requires
            self.wf(),
            self.can_match(taker),
        ensures
            self.match_one(taker).wf(),
            self.match_one(taker).book.side(taker.side) == self.book.side(taker.side),
            self.match_one(taker).symbol == self.symbol,
            self.match_one(taker).book.sequence == self.book.sequence,
    {
        self.lemma_front_maker(taker);
        let ms = taker.side.opposite();
        let ts = taker.side;
        let side = self.book.side(ms);
        let b = side.best_idx->0 as int;
        let level = side.levels[b]->0;
        let h = level.handles[0];
        let qty = self.next_qty(taker);
        let maker = self.pool.order(h);
        let done = maker.filled_by(qty).remaining_qty.0 == 0;
        let after = self.match_one(taker);
        side.lemma_after_fill(qty, done);
        self.pool.lemma_after_fill(h, qty);
        let side2 = after.book.side(ms);
        assert(side2 == side.after_fill(qty, done));
        assert(after.book.side(ts) == self.book.side(ts));
        assert(self.resting_ok(ms, b, h));
        assert(level.handles.no_duplicates());

        assert forall|i: int, k: int| #[trigger] after.has_slot(ms, i, k) implies after.resting_ok(
            ms,
            i,
            after.handle_at(ms, i, k),
        ) by {
            let h2 = after.handle_at(ms, i, k);
            if i != b {
                assert(side2.levels[i] == side.levels[i]);
                assert(self.has_slot(ms, i, k));
                assert(self.resting_ok(ms, i, h2));
                assert(h2 != h);
            } else if done {
                assert(h2 == level.handles[k + 1]);
                assert(self.has_slot(ms, b, k + 1));
                assert(self.resting_ok(ms, b, self.handle_at(ms, b, k + 1)));
                assert(h2 != h);
            } else {
                assert(h2 == level.handles[k]);
                assert(self.has_slot(ms, b, k));
                assert(self.resting_ok(ms, b, self.handle_at(ms, b, k)));
            }
        }
        assert forall|i: int| 0 <= i < MAX_LEVELS
            implies ((#[trigger] after.book.side(ms).levels[i]) matches Some(lv)
            ==> lv.handles.no_duplicates()) by {
            if i != b {
                assert(side2.levels[i] == side.levels[i]);
            } else if done {
                assert(level.handles.skip(1) =~= level.handles.remove(0));
                lemma_remove_distinct(level.handles, 0);
            }
        }
        assert forall|i: int, k: int| #[trigger] after.has_slot(ts, i, k) implies after.resting_ok(
            ts,
            i,
            after.handle_at(ts, i, k),
        ) by {
            let h2 = after.handle_at(ts, i, k);
            assert(self.has_slot(ts, i, k));
            assert(self.resting_ok(ts, i, h2));
            assert(h2 != h);
        }
        assert forall|h2: u32| #[trigger] after.pool.orders.dom().contains(h2)
            implies after.book.side(
            after.pool.orders[h2].side,
        ).queues(OrderHandle(h2), after.pool.orders[h2].price) by {
            assert(self.pool.orders.dom().contains(h2));
            let o = self.pool.orders[h2];
            assert(after.pool.orders[h2].side == o.side);
            assert(after.pool.orders[h2].price == o.price);
            let s = self.book.side(o.side);
            assert(s.queues(OrderHandle(h2), o.price));
            if o.side == ms {
                let i = s.price_to_idx(o.price)->0;
                s.lemma_idx_price(o.price);
                if i != b {
                    assert(side2.levels[i] == side.levels[i]);
                } else if done {
                    assert(h2 != h.0);
                    let j = choose|j: int|
                        0 <= j < level.handles.len() && level.handles[j] == OrderHandle(h2);
                    assert(level.handles.skip(1)[j - 1] == OrderHandle(h2));
                }
            }
        }
    }

    /// Bringing an order to rest keeps the invariant.
    pub proof fn lemma_rest(self, order: Order)
        requires
            self.wf(),
            0 < order.remaining_qty.0 <= order.original_qty.0,
            self.rest_error(order) is None,
        ensures
            self.rest(order).wf(),
            self.pool.free.len() > 0,
            self.book.side(order.side).order_count < u64::MAX,
            self.pool.allocate().allocated(self.next_handle()),
            self.rest(order).pool.is_live(self.next_handle()),
            self.rest(order).pool.order(self.next_handle()) == order,
            self.rest(order).book.side(order.side.opposite()) == self.book.side(
                order.side.opposite(),
            ),
    {
        let os = order.side;
        let xs = order.side.opposite();
        let side = self.book.side(os);
        let h = self.next_handle();
        let after = self.rest(order);
        let i = side.price_to_idx(order.price)->0;
        side.lemma_idx_price(order.price);
        side.lemma_add_order(h, order);
        self.pool.lemma_allocate_wf();
        self.pool.allocate().lemma_insert_wf(h, order);
        let side2 = after.book.side(os);
        assert(side2 == side.add_order(h, order));
        assert(after.book.side(xs) == self.book.side(xs));
        assert(!self.pool.orders.dom().contains(h.0)) by {
            assert(self.pool.free[self.pool.free.len() - 1] == h.0);
            assert(self.pool.free.contains(h.0));
        }
        let old_level = side.level_or_new(i);
        assert(side2.levels[i] == Some(old_level.push_back(h, order.remaining_qty)));
        assert forall|j: int, k: int| #[trigger] after.has_slot(os, j, k) implies after.resting_ok(
            os,
            j,
            after.handle_at(os, j, k),
        ) by {
            let h2 = after.handle_at(os, j, k);
            if j != i {
                assert(side2.levels[j] == side.levels[j]);
                assert(self.has_slot(os, j, k));
                assert(self.resting_ok(os, j, h2));
            } else if k < old_level.handles.len() {
                assert(h2 == old_level.handles[k]);
                assert(self.has_slot(os, i, k));
                assert(self.resting_ok(os, i, self.handle_at(os, i, k)));
            } else {
                assert(h2 == h);
            }
        }
        assert forall|j: int| 0 <= j < MAX_LEVELS
            implies ((#[trigger] after.book.side(os).levels[j]) matches Some(lv)
            ==> lv.handles.no_duplicates()) by {
            if j != i {
                assert(side2.levels[j] == side.levels[j]);
            } else {
                let hs = old_level.handles;
                let hs2 = hs.push(h);
                assert(hs.no_duplicates()) by {
                    if side.levels[i] is Some {
                        assert(side.levels[i]->0.handles.no_duplicates());
                    }
                }
                assert forall|a: int, b: int|
                    0 <= a < hs2.len() && 0 <= b < hs2.len() && a != b implies hs2[a]
                    != hs2[b] by {
                    if a < hs.len() && b < hs.len() {
                    } else if a < hs.len() {
                        assert(self.has_slot(os, i, a));
                        assert(self.resting_ok(os, i, self.handle_at(os, i, a)));
                    } else {
                        assert(self.has_slot(os, i, b));
                        assert(self.resting_ok(os, i, self.handle_at(os, i, b)));
                    }
                }
            }
        }
        assert forall|j: int, k: int| #[trigger] after.has_slot(xs, j, k) implies after.resting_ok(
            xs,
            j,
            after.handle_at(xs, j, k),
        ) by {
            let h2 = after.handle_at(xs, j, k);
            assert(self.has_slot(xs, j, k));
            assert(self.resting_ok(xs, j, h2));
        }
        assert forall|h2: u32| #[trigger] after.pool.orders.dom().contains(h2)
            implies after.book.side(
            after.pool.orders[h2].side,
        ).queues(OrderHandle(h2), after.pool.orders[h2].price) by {
            if h2 == h.0 {
                let hs2 = old_level.handles.push(h);
                assert(hs2[hs2.len() - 1] == h);
                assert(hs2.contains(h));
            } else {
                assert(self.pool.orders.dom().contains(h2));
                let o = self.pool.orders[h2];
                let s = self.book.side(o.side);
                assert(s.queues(OrderHandle(h2), o.price));
                if o.side == os {
                    let j = s.price_to_idx(o.price)->0;
                    s.lemma_idx_price(o.price);
                    if j != i {
                        assert(side2.levels[j] == side.levels[j]);
                    } else {
                        let hs = old_level.handles;
                        let a = choose|a: int| 0 <= a < hs.len() && hs[a] == OrderHandle(h2);
                        assert(hs.push(h)[a] == OrderHandle(h2));
                    }
                }
            }
        }
    }

    /// Cancelling a live order keeps the invariant.
    pub proof fn lemma_cancel(self, handle: OrderHandle)
        requires
            self.wf(),
            self.pool.is_live(handle),
        ensures
            self.cancel(handle).wf(),
            self.pool.allocated(handle),
            self.book.side(self.pool.order(handle).side).queues(
                handle,
                self.pool.order(handle).price,
            ),
            self.cancel(handle).book.side(self.pool.order(handle).side.opposite())
                == self.book.side(self.pool.order(handle).side.opposite()),
    {
        let order = self.pool.order(handle);
        let os = order.side;
        let xs = order.side.opposite();
        let side = self.book.side(os);
        let after = self.cancel(handle);
        assert(self.pool.orders.dom().contains(handle.0));
        assert(side.queues(handle, order.price));
        let i = side.price_to_idx(order.price)->0;
        side.lemma_idx_price(order.price);
        side.lemma_remove_order(handle, order.price, order.remaining_qty);
        self.pool.lemma_deallocate_wf(handle);
        let side2 = after.book.side(os);
        assert(side2 == side.remove_order(handle, order.price, order.remaining_qty));
        assert(after.book.side(xs) == self.book.side(xs));
        let level = side.levels[i]->0;
        let pos = first_index(level.handles, handle);
        lemma_first_index(level.handles, handle);
        assert(level.handles.no_duplicates());
        lemma_remove_distinct(level.handles, pos);
        let hs2 = level.handles.remove(pos);
        assert forall|j: int, k: int| #[trigger] after.has_slot(os, j, k) implies after.resting_ok(
            os,
            j,
            after.handle_at(os, j, k),
        ) by {
            let h2 = after.handle_at(os, j, k);
            if j != i {
                assert(side2.levels[j] == side.levels[j]);
                assert(self.has_slot(os, j, k));
                assert(self.resting_ok(os, j, h2));
                assert(h2 != handle);
            } else {
                let k0 = if k < pos {
                    k
                } else {
                    k + 1
                };
                assert(h2 == hs2[k]);
                assert(h2 == level.handles[k0]);
                assert(self.has_slot(os, i, k0));
                assert(self.resting_ok(os, i, self.handle_at(os, i, k0)));
                assert(h2 != handle);
            }
        }
        assert forall|j: int| 0 <= j < MAX_LEVELS
            implies ((#[trigger] after.book.side(os).levels[j]) matches Some(lv)
            ==> lv.handles.no_duplicates()) by {
            if j != i {
                assert(side2.levels[j] == side.levels[j]);
            }
        }
        assert forall|j: int, k: int| #[trigger] after.has_slot(xs, j, k) implies after.resting_ok(
            xs,
            j,
            after.handle_at(xs, j, k),
        ) by {
            let h2 = after.handle_at(xs, j, k);
            assert(self.has_slot(xs, j, k));
            assert(self.resting_ok(xs, j, h2));
            assert(h2 != handle);
        }
        assert forall|h2: u32| #[trigger] after.pool.orders.dom().contains(h2)
            implies after.book.side(
            after.pool.orders[h2].side,
        ).queues(OrderHandle(h2), after.pool.orders[h2].price) by {
            assert(self.pool.orders.dom().contains(h2));
            assert(h2 != handle.0);
            let o = self.pool.orders[h2];
            let s = self.book.side(o.side);
            assert(s.queues(OrderHandle(h2), o.price));
            if o.side == os {
                let j = s.price_to_idx(o.price)->0;
                s.lemma_idx_price(o.price);
                if j != i {
                    assert(side2.levels[j] == side.levels[j]);
                } else {
                    let a = choose|a: int|
                        0 <= a < level.handles.len() && level.handles[a] == OrderHandle(h2);
                    assert(hs2.contains(level.handles[a]));
                }
            }
        }
    }

    /// A new engine satisfies the invariant.
    pub proof fn lemma_empty_wf(symbol: SymbolId, capacity: nat, base_price: Price)
        requires
            capacity <= MAX_POOL_CAPACITY,
        ensures
            EngineView::empty(symbol, capacity, base_price).wf(),
    {
        let e = EngineView::empty(symbol, capacity, base_price);
        SideView::lemma_empty_consistent(Side::Buy, base_price);
        SideView::lemma_empty_consistent(Side::Sell, base_price);
        assert(e.pool.free.no_duplicates());
    }

    /// The crossing loop keeps the invariant and ends with a taker that
    /// cannot match any more. It changes nothing of the taker but its
    /// remaining quantity, which falls by the total of the fills, and leaves
    /// the taker's own side of the book alone. If a fill was executed and the
    /// taker still has quantity left, a maker was filled completely, so a
    /// pool slot is free.
    pub proof fn lemma_cross(self, taker: Order)
        requires
            self.wf(),
        ensures
            self.cross(taker).engine.wf(),
            !self.cross(taker).engine.can_match(self.cross(taker).taker),
            self.cross(taker).taker == (Order {
                remaining_qty: self.cross(taker).taker.remaining_qty,
                ..taker
            }),
            fill_total(self.cross(taker).fills) + self.cross(taker).taker.remaining_qty.0
                == taker.remaining_qty.0,
            self.cross(taker).engine.book.side(taker.side) == self.book.side(taker.side),
            self.cross(taker).engine.symbol == self.symbol,
            self.cross(taker).engine.book.sequence == self.book.sequence,
            self.cross(taker).engine.pool.capacity == self.pool.capacity,
            self.cross(taker).fills.len() == 0 ==> self.cross(taker).engine == self,
            self.cross(taker).fills.len() > 0 && self.cross(taker).taker.remaining_qty.0 > 0
                ==> self.cross(taker).engine.pool.free.len() > 0,
            self.cross(taker).engine.pool.free.len() >= self.pool.free.len(),
        decreases taker.remaining_qty.0,
    {
        if self.can_match(taker) {
            self.lemma_front_maker(taker);
            self.lemma_match_one(taker);
            let fill = self.next_fill(taker);
            let after = taker.filled_by(fill.quantity);
            let next = self.match_one(taker);
            let rest = next.cross(after);
            next.lemma_cross(after);
            let fills = seq![fill] + rest.fills;
            lemma_fill_total_prepend(fill, rest.fills);
            let h = self.front_maker(taker.side);
            self.pool.lemma_after_fill(h, self.next_qty(taker));
        } else {
        }
    }
}

/// The total of a sequence of fills with one more in front.
pub proof fn lemma_fill_total_prepend(fill: Fill, fills: Seq<Fill>)
    ensures
        fill_total(seq![fill] + fills) == fill.quantity.0 + fill_total(fills),
    decreases fills.len(),
{
    let all = seq![fill] + fills;
    if fills.len() == 0 {
        assert(all.drop_last() =~= Seq::<Fill>::empty());
        assert(fill_total(all.drop_last()) == 0);
    } else {
        assert(all.drop_last() =~= seq![fill] + fills.drop_last());
        lemma_fill_total_prepend(fill, fills.drop_last());
        assert(all.last() == fills.last());
    }
}

} // verus!
