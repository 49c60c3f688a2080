//! The cached aggregate quantities agree with the resting orders.
//!
//! Aggregates are kept with saturating arithmetic, so they agree with the
//! orders they summarise only as long as no sum has passed `u64::MAX`. The
//! lemmas here show that every step keeps them exact, given that the step
//! itself does not push a side's total past `u64::MAX`.

use vstd::prelude::*;
use crate::order::{Order, Side};
use crate::pool::{OrderHandle, PoolView};
use crate::level::{first_index, lemma_first_index};
use crate::book::{MAX_LEVELS, lemma_sums_update, level_qty};
use crate::model::EngineView;
use crate::soundness::lemma_remove_distinct;

verus! {

/// Sum of the remaining quantities of the orders under `handles`.
pub open spec fn resting_total(pool: PoolView, handles: Seq<OrderHandle>) -> nat
    decreases handles.len(),
{
    if handles.len() == 0 {
        0
    } else {
        resting_total(pool, handles.drop_last()) + pool.order(handles.last()).remaining_qty.0 as nat
    }
}

/// The sum only depends on the orders under the handles it runs over.
pub proof fn lemma_resting_total_same(a: PoolView, b: PoolView, handles: Seq<OrderHandle>)
    requires
        forall|k: int|
            0 <= k < handles.len() ==> a.order(#[trigger] handles[k]).remaining_qty == b.order(
                handles[k],
            ).remaining_qty,
    ensures
        resting_total(a, handles) == resting_total(b, handles),
    decreases handles.len(),
{
    if handles.len() > 0 {
        let front = handles.drop_last();
        assert forall|k: int| 0 <= k < front.len() implies a.order(
            #[trigger] front[k],
        ).remaining_qty == b.order(front[k]).remaining_qty by {
            assert(front[k] == handles[k]);
        }
        lemma_resting_total_same(a, b, front);
        assert(handles.last() == handles[handles.len() - 1]);
    }
}

/// Taking the handle at `pos` out takes its order's quantity off the sum.
pub proof fn lemma_resting_total_remove(pool: PoolView, handles: Seq<OrderHandle>, pos: int)
    requires
        0 <= pos < handles.len(),
    ensures
        resting_total(pool, handles.remove(pos)) + pool.order(handles[pos]).remaining_qty.0
            == resting_total(pool, handles),
    decreases handles.len(),
{
    let removed = handles.remove(pos);
    if pos == handles.len() - 1 {
        assert(removed =~= handles.drop_last());
    } else {
        lemma_resting_total_remove(pool, handles.drop_last(), pos);
        assert(removed.drop_last() =~= handles.drop_last().remove(pos));
        assert(removed.last() == handles.last());
        assert(handles.drop_last()[pos] == handles[pos]);
    }
}

/// Changing the order under a handle that is queued once changes the sum by
/// as much as the order's quantity changes.
pub proof fn lemma_resting_total_update(
    a: PoolView,
    b: PoolView,
    handles: Seq<OrderHandle>,
    pos: int,
)
    requires
        0 <= pos < handles.len(),
        handles.no_duplicates(),
        forall|k: int|
            0 <= k < handles.len() && k != pos ==> a.order(#[trigger] handles[k]).remaining_qty
                == b.order(handles[k]).remaining_qty,
    ensures
        resting_total(a, handles) + b.order(handles[pos]).remaining_qty.0 == resting_total(
            b,
            handles,
        ) + a.order(handles[pos]).remaining_qty.0,
{
    lemma_resting_total_remove(a, handles, pos);
    lemma_resting_total_remove(b, handles, pos);
    let rest = handles.remove(pos);
    lemma_remove_distinct(handles, pos);
    assert forall|k: int| 0 <= k < rest.len() implies a.order(#[trigger] rest[k]).remaining_qty
        == b.order(rest[k]).remaining_qty by {
        let k0 = if k < pos {
            k
        } else {
            k + 1
        };
        assert(rest[k] == handles[k0]);
    }
    lemma_resting_total_same(a, b, rest);
}

impl EngineView {
    /// The aggregate of every level of `side` is the sum of the remaining
    /// quantities of the orders queued in it.
    pub open spec fn level_totals_exact(self, side: Side) -> bool {
        forall|i: int|
            0 <= i < MAX_LEVELS
                ==> ((#[trigger] self.book.side(side).levels[i]) matches Some(level)
                ==> level.total_qty.0 == resting_total(self.pool, level.handles))
    }

    /// Every cached aggregate is exact: each level's is the sum over its
    /// orders, and each side's is the sum over its levels.
    pub open spec fn quantities_exact(self) -> bool {
        &&& self.book.bids.qty_exact()
        &&& self.book.asks.qty_exact()
        &&& self.level_totals_exact(Side::Buy)
        &&& self.level_totals_exact(Side::Sell)
    }

    /// One execution keeps the aggregates exact, and takes the executed
    /// quantity off the maker side's total.
    pub proof fn lemma_match_one_exact(self, taker: Order)
        requires
            self.wf(),
            self.quantities_exact(),
            self.can_match(taker),
        ensures
            self.match_one(taker).quantities_exact(),
            self.match_one(taker).makers(taker.side).total_qty.0 + self.next_qty(taker).0
                == self.makers(taker.side).total_qty.0,
    {
        self.lemma_front_maker(taker);
        self.lemma_match_one(taker);
        let ms = taker.side.opposite();
        let ts = taker.side;
        let side = self.book.side(ms);
        let b = side.best_idx->0 as int;
        let level = side.levels[b]->0;
        let h = level.handles[0];
        let qty = self.next_qty(taker);
        let maker = self.pool.order(h);
        let done = maker.filled_by(qty).remaining_qty.0 == 0;
        let after = self.match_one(taker);
        side.lemma_after_fill(qty, done);
        self.pool.lemma_after_fill(h, qty);
        let side2 = after.book.side(ms);
        assert(side2 == side.after_fill(qty, done));
        assert(after.book.side(ts) == self.book.side(ts));
        assert(self.has_slot(ms, b, 0));
        assert(self.resting_ok(ms, b, h));
        assert(level.handles.no_duplicates());
        assert(level.total_qty.0 == resting_total(self.pool, level.handles));
        lemma_resting_total_remove(self.pool, level.handles, 0);
        assert(level.handles.remove(0) =~= level.handles.skip(1));
        lemma_remove_distinct(level.handles, 0);
        assert(qty.0 <= maker.remaining_qty.0 <= level.total_qty.0);

        // The level that was hit.
        let level2 = if done {
            level.reduce_qty(qty).pop_front()
        } else {
            level.reduce_qty(qty)
        };
        assert(level2.total_qty.0 == level.total_qty.0 - qty.0);
        assert(level2.total_qty.0 == resting_total(after.pool, level2.handles)) by {
            if done {
                assert forall|k: int| 0 <= k < level2.handles.len() implies self.pool.order(
                    #[trigger] level2.handles[k],
                ).remaining_qty == after.pool.order(level2.handles[k]).remaining_qty by {
                    assert(level2.handles[k] == level.handles[k + 1]);
                    assert(level2.handles[k] != h);
                    assert(self.has_slot(ms, b, k + 1));
                    assert(self.resting_ok(ms, b, self.handle_at(ms, b, k + 1)));
                }
                lemma_resting_total_same(self.pool, after.pool, level2.handles);
            } else {
                assert forall|k: int| 0 <= k < level.handles.len() && k != 0
                    implies self.pool.order(
                    #[trigger] level.handles[k],
                ).remaining_qty == after.pool.order(level.handles[k]).remaining_qty by {
                    assert(level.handles[k] != h);
                    assert(self.has_slot(ms, b, k));
                    assert(self.resting_ok(ms, b, self.handle_at(ms, b, k)));
                }
                lemma_resting_total_update(self.pool, after.pool, level.handles, 0);
            }
        }

        // The other levels of the maker side.
        assert forall|i: int| 0 <= i < MAX_LEVELS
            implies ((#[trigger] after.book.side(ms).levels[i]) matches Some(lv)
            ==> lv.total_qty.0 == resting_total(
            after.pool,
            lv.handles,
        )) by {
            if i != b {
                assert(side2.levels[i] == side.levels[i]);
                if side.levels[i] is Some {
                    let lv = side.levels[i]->0;
                    assert forall|k: int| 0 <= k < lv.handles.len() implies self.pool.order(
                        #[trigger] lv.handles[k],
                    ).remaining_qty == after.pool.order(lv.handles[k]).remaining_qty by {
                        assert(self.has_slot(ms, i, k));
                        assert(self.resting_ok(ms, i, self.handle_at(ms, i, k)));
                        assert(lv.handles[k] != h);
                    }
                    lemma_resting_total_same(self.pool, after.pool, lv.handles);
                }
            }
        }
        // The taker's own side.
        assert forall|i: int| 0 <= i < MAX_LEVELS
            implies ((#[trigger] after.book.side(ts).levels[i]) matches Some(lv)
            ==> lv.total_qty.0 == resting_total(
            after.pool,
            lv.handles,
        )) by {
            if self.book.side(ts).levels[i] is Some {
                let lv = self.book.side(ts).levels[i]->0;
                assert forall|k: int| 0 <= k < lv.handles.len() implies self.pool.order(
                    #[trigger] lv.handles[k],
                ).remaining_qty == after.pool.order(lv.handles[k]).remaining_qty by {
                    assert(self.has_slot(ts, i, k));
                    assert(self.resting_ok(ts, i, self.handle_at(ts, i, k)));
                    assert(lv.handles[k] != h);
                }
                lemma_resting_total_same(self.pool, after.pool, lv.handles);
            }
        }
        // The maker side's total.
        lemma_sums_update(side.levels, b, side2.levels[b]);
        assert(side2.levels =~= side.levels.update(b, side2.levels[b]));
        assert(level_qty(side2.levels[b]) == level.total_qty.0 - qty.0) by {
            if side2.levels[b] is None {
                assert(level.handles.len() == 1);
                assert(level.handles.remove(0).len() == 0);
            }
        }
    }

    /// Bringing an order to rest keeps the aggregates exact, as long as the
    /// total of its side stays within `u64::MAX`.
    pub proof fn lemma_rest_exact(self, order: Order)
        requires
            self.wf(),
            self.quantities_exact(),
            0 < order.remaining_qty.0 <= order.original_qty.0,
            self.rest_error(order) is None,
            self.book.side(order.side).total_qty.0 + order.remaining_qty.0 <= u64::MAX,
        ensures
            self.rest(order).quantities_exact(),
            self.rest(order).book.side(order.side).total_qty.0
                == self.book.side(order.side).total_qty.0 + order.remaining_qty.0,
    {
        self.lemma_rest(order);
        let os = order.side;
        let xs = order.side.opposite();
        let side = self.book.side(os);
        let h = self.next_handle();
        let after = self.rest(order);
        let i = side.price_to_idx(order.price)->0;
        side.lemma_idx_price(order.price);
        let side2 = after.book.side(os);
        assert(side2 == side.add_order(h, order));
        assert(after.book.side(xs) == self.book.side(xs));
        assert(!self.pool.orders.dom().contains(h.0)) by {
            assert(self.pool.free[self.pool.free.len() - 1] == h.0);
            assert(self.pool.free.contains(h.0));
        }
        let old_level = side.level_or_new(i);
        let new_level = old_level.push_back(h, order.remaining_qty);
        lemma_sums_update(side.levels, i, Some(new_level));
        assert(old_level.total_qty.0 == level_qty(side.levels[i]));
        assert(old_level.total_qty.0 == resting_total(self.pool, old_level.handles));
        assert(new_level.handles.drop_last() =~= old_level.handles);
        assert forall|j: int| 0 <= j < MAX_LEVELS
            implies ((#[trigger] after.book.side(os).levels[j]) matches Some(lv)
            ==> lv.total_qty.0 == resting_total(
            after.pool,
            lv.handles,
        )) by {
            let lv = if j != i {
                assert(side2.levels[j] == side.levels[j]);
                side.levels[j]
            } else {
                side.levels[i]
            };
            if lv is Some {
                let hs = lv->0.handles;
                assert forall|k: int| 0 <= k < hs.len() implies self.pool.order(
                    #[trigger] hs[k],
                ).remaining_qty == after.pool.order(hs[k]).remaining_qty by {
                    assert(self.has_slot(os, j, k));
                    assert(self.resting_ok(os, j, self.handle_at(os, j, k)));
                }
                lemma_resting_total_same(self.pool, after.pool, hs);
            }
            if j == i {
                assert(side2.levels[i] == Some(new_level));
                assert(new_level.handles.last() == h);
                assert(after.pool.order(h) == order);
                assert(resting_total(after.pool, old_level.handles) == resting_total(
                    self.pool,
                    old_level.handles,
                ));
                assert(resting_total(after.pool, new_level.handles) == resting_total(
                    after.pool,
                    new_level.handles.drop_last(),
                ) + order.remaining_qty.0);
            }
        }
        assert forall|j: int| 0 <= j < MAX_LEVELS
            implies ((#[trigger] after.book.side(xs).levels[j]) matches Some(lv)
            ==> lv.total_qty.0 == resting_total(
            after.pool,
            lv.handles,
        )) by {
            if self.book.side(xs).levels[j] is Some {
                let hs = self.book.side(xs).levels[j]->0.handles;
                assert forall|k: int| 0 <= k < hs.len() implies self.pool.order(
                    #[trigger] hs[k],
                ).remaining_qty == after.pool.order(hs[k]).remaining_qty by {
                    assert(self.has_slot(xs, j, k));
                    assert(self.resting_ok(xs, j, self.handle_at(xs, j, k)));
                }
                lemma_resting_total_same(self.pool, after.pool, hs);
            }
        }
    }

    /// Cancelling a live order keeps the aggregates exact, and takes the
    /// order's remaining quantity off the total of its side.
    pub proof fn lemma_cancel_exact(self, handle: OrderHandle)
        requires
            self.wf(),
            self.quantities_exact(),
            self.pool.is_live(handle),
        ensures
            self.cancel(handle).quantities_exact(),
            self.cancel(handle).book.side(self.pool.order(handle).side).total_qty.0
                + self.pool.order(handle).remaining_qty.0 == self.book.side(
                self.pool.order(handle).side,
            ).total_qty.0,
    {
        self.lemma_cancel(handle);
        let order = self.pool.order(handle);
        let os = order.side;
        let xs = order.side.opposite();
        let side = self.book.side(os);
        let after = self.cancel(handle);
        let i = side.price_to_idx(order.price)->0;
        side.lemma_idx_price(order.price);
        side.lemma_remove_order(handle, order.price, order.remaining_qty);
        let side2 = after.book.side(os);
        assert(side2 == side.remove_order(handle, order.price, order.remaining_qty));
        assert(after.book.side(xs) == self.book.side(xs));
        let level = side.levels[i]->0;
        let pos = first_index(level.handles, handle);
        lemma_first_index(level.handles, handle);
        assert(level.handles.no_duplicates());
        lemma_remove_distinct(level.handles, pos);
        lemma_resting_total_remove(self.pool, level.handles, pos);
        let hs2 = level.handles.remove(pos);
        assert(level.total_qty.0 == resting_total(self.pool, level.handles));
        assert forall|k: int| 0 <= k < hs2.len() implies self.pool.order(
            #[trigger] hs2[k],
        ).remaining_qty == after.pool.order(hs2[k]).remaining_qty by {
            assert(hs2[k] != handle);
        }
        lemma_resting_total_same(self.pool, after.pool, hs2);
        lemma_sums_update(side.levels, i, side2.levels[i]);
        assert(side2.levels =~= side.levels.update(i, side2.levels[i]));
        assert forall|j: int| 0 <= j < MAX_LEVELS
            implies ((#[trigger] after.book.side(os).levels[j]) matches Some(lv)
            ==> lv.total_qty.0 == resting_total(
            after.pool,
            lv.handles,
        )) by {
            if j != i {
                assert(side2.levels[j] == side.levels[j]);
                if side.levels[j] is Some {
                    let hs = side.levels[j]->0.handles;
                    assert forall|k: int| 0 <= k < hs.len() implies self.pool.order(
                        #[trigger] hs[k],
                    ).remaining_qty == after.pool.order(hs[k]).remaining_qty by {
                        assert(self.has_slot(os, j, k));
                        assert(self.resting_ok(os, j, self.handle_at(os, j, k)));
                        assert(hs[k] != handle);
                    }
                    lemma_resting_total_same(self.pool, after.pool, hs);
                }
            }
        }
        assert forall|j: int| 0 <= j < MAX_LEVELS
            implies ((#[trigger] after.book.side(xs).levels[j]) matches Some(lv)
            ==> lv.total_qty.0 == resting_total(
            after.pool,
            lv.handles,
        )) by {
            if self.book.side(xs).levels[j] is Some {
                let hs = self.book.side(xs).levels[j]->0.handles;
                assert forall|k: int| 0 <= k < hs.len() implies self.pool.order(
                    #[trigger] hs[k],
                ).remaining_qty == after.pool.order(hs[k]).remaining_qty by {
                    assert(self.has_slot(xs, j, k));
                    assert(self.resting_ok(xs, j, self.handle_at(xs, j, k)));
                    assert(hs[k] != handle);
                }
                lemma_resting_total_same(self.pool, after.pool, hs);
            }
        }
    }

    /// The crossing loop keeps the aggregates exact, and takes the total of
    /// the fills off the maker side's total.
    pub proof fn lemma_cross_exact(self, taker: Order)
        requires
            self.wf(),
            self.quantities_exact(),
        ensures
            self.cross(taker).engine.quantities_exact(),
            self.cross(taker).engine.makers(taker.side).total_qty.0 + crate::fills::fill_total(
                self.cross(taker).fills,
            ) == self.makers(taker.side).total_qty.0,
        decreases taker.remaining_qty.0,
    {
        if self.can_match(taker) {
            self.lemma_front_maker(taker);
            self.lemma_match_one(taker);
            self.lemma_match_one_exact(taker);
            let fill = self.next_fill(taker);
            let after = taker.filled_by(fill.quantity);
            let next = self.match_one(taker);
            next.lemma_cross_exact(after);
            crate::soundness::lemma_fill_total_prepend(fill, next.cross(after).fills);
        }
    }
}

} // verus!
