//! Laws of the matching engine, proved of its model.
//!
//! `MatchingEngine::submit_order` and `MatchingEngine::cancel_order` are
//! proved to do exactly what `EngineView::submit` and `EngineView::cancel`
//! say, so every law here holds of the running engine.

use vstd::prelude::*;
use crate::fixed::{Price, Quantity};
use crate::order::{Order, Side, SymbolId};
use crate::pool::OrderHandle;
use crate::level::{MAX_ORDERS_PER_LEVEL, first_index, lemma_first_index};
use crate::book::{
    SideView,
    MAX_LEVELS,
    count_orders,
    is_better,
    lemma_scan_down,
    lemma_scan_up,
    level_len,
    level_qty,
    scan_down,
    scan_up,
    sum_qty,
};
use crate::quantities::resting_total;
use crate::fills::{MAX_FILLS_PER_ORDER, fill_total, recorded};
use crate::model::{EngineView, RejectReason, ResultView};

verus! {

impl EngineView {
    /// A submission keeps the engine invariant, whatever its result.
    pub proof fn law_submit_keeps_invariant(self, order: Order, timestamp: u64)
        requires
            self.wf(),
            order.wf(),
        ensures
            self.submit(order, timestamp).0.wf(),
    {
        if self.precheck(order) is None {
            let stamped = order.stamped(timestamp);
            self.lemma_cross(stamped);
            let crossed = self.cross(stamped);
            if crossed.taker.remaining_qty.0 != 0 && crossed.taker.order_type.should_rest()
                && crossed.engine.rest_error(crossed.taker) is None {
                crossed.engine.lemma_rest(crossed.taker);
            }
        }
    }

    /// A cancellation keeps the engine invariant.
    pub proof fn law_cancel_keeps_invariant(self, handle: OrderHandle)
        requires
            self.wf(),
            self.pool.is_live(handle),
        ensures
            self.cancel(handle).wf(),
    {
        self.lemma_cancel(handle);
    }

    /// On each side the best index is absent if and only if every level of
    /// that side is empty.
    pub proof fn law_best_absent_iff_side_empty(self, side: Side)
        requires
            self.wf(),
        ensures
            self.book.side(side).best_idx is None <==> (forall|i: int|
                0 <= i < MAX_LEVELS ==> level_len(#[trigger] self.book.side(side).levels[i]) == 0),
    {
        self.book.side(side).lemma_best_absent_iff_empty();
    }

    /// On each side the best index, where there is one, points at an
    /// occupied level, and no occupied level has a better price.
    pub proof fn law_best_is_best(self, side: Side, i: int)
        requires
            self.wf(),
            0 <= i < MAX_LEVELS,
            self.book.side(side).occupied(i),
        ensures
            self.book.side(side).best_idx matches Some(b) && self.book.side(side).occupied(b as int)
                && !is_better(side, i, b as int),
    {
        let s = self.book.side(side);
        assert(s.consistent());
        match s.best_idx {
            Some(b) => {
                assert(s.occupied(b as int));
            },
            None => {},
        }
    }

    /// On each side the order count is the sum of the lengths of its
    /// levels.
    pub proof fn law_order_count(self, side: Side)
        requires
            self.wf(),
        ensures
            self.book.side(side).order_count == count_orders(self.book.side(side).levels),
    {
        assert(self.book.side(side).consistent());
    }

    /// The pool's active count and the depth of its free stack add up to
    /// its capacity.
    pub proof fn law_pool_accounting(self)
        requires
            self.wf(),
        ensures
            self.pool.active + self.pool.free.len() == self.pool.capacity,
    {
    }

    /// No handle is queued in more than one place: two queue positions that
    /// hold the same handle are the same position of the same level of the
    /// same side.
    pub proof fn law_handle_queued_once(
        self,
        side1: Side,
        i1: int,
        k1: int,
        side2: Side,
        i2: int,
        k2: int,
    )
        requires
            self.wf(),
            self.has_slot(side1, i1, k1),
            self.has_slot(side2, i2, k2),
            self.handle_at(side1, i1, k1) == self.handle_at(side2, i2, k2),
        ensures
            side1 == side2,
            i1 == i2,
            k1 == k2,
    {
        let h = self.handle_at(side1, i1, k1);
        assert(self.resting_ok(side1, i1, h));
        assert(self.resting_ok(side2, i2, h));
        assert(self.book.side(side1).levels[i1]->0.handles.no_duplicates());
    }

    /// Price-time priority: the maker of the next fill is the oldest order at
    /// the best price of its side. Every other resting order of that side
    /// is either at a price that is no better, or at the same price and
    /// further back in the queue.
    pub proof fn law_price_time_priority(self, taker: Order, i: int, k: int)
        requires
            self.wf(),
            self.can_match(taker),
            self.has_slot(taker.side.opposite(), i, k),
        ensures
            self.makers(taker.side).best_idx is Some,
            self.front_maker(taker.side) == self.handle_at(
                taker.side.opposite(),
                self.makers(taker.side).best_idx->0 as int,
                0,
            ),
            !is_better(taker.side.opposite(), i, self.makers(taker.side).best_idx->0 as int),
            self.handle_at(taker.side.opposite(), i, k) != self.front_maker(taker.side) ==> i
                != self.makers(taker.side).best_idx->0 || k > 0,
    {
        self.lemma_front_maker(taker);
        let side = self.makers(taker.side);
        assert(side.occupied(i));
        self.law_best_is_best(taker.side.opposite(), i);
    }

    /// When an execution fills the last order of the best level, the level
    /// is released and the best index moves to the nearest occupied level
    /// with a worse price. If there is no such level the side is empty: it
    /// has no best index.
    pub proof fn law_exhausted_level_moves_best(self, taker: Order)
        requires
            self.wf(),
            self.can_match(taker),
            self.makers(taker.side).best_level()->0.handles.len() == 1,
            self.pool.order(self.front_maker(taker.side)).remaining_qty.0
                <= taker.remaining_qty.0,
        ensures
            self.match_one(taker).makers(taker.side).levels[self.makers(taker.side).best_idx->0 as
                int] is None,
            self.match_one(taker).makers(taker.side).best_idx
                == self.makers(taker.side).next_best(self.makers(taker.side).best_idx->0 as int),
            self.makers(taker.side).order_count == 1
                ==> self.match_one(taker).makers(taker.side).best_idx is None,
    {
        self.lemma_front_maker(taker);
        self.lemma_match_one(taker);
        let side = self.makers(taker.side);
        let b = side.best_idx->0 as int;
        let qty = self.next_qty(taker);
        side.lemma_after_fill(qty, true);
        let after = self.match_one(taker).makers(taker.side);
        assert(after == side.after_fill(qty, true));
        let level = side.levels[b]->0.reduce_qty(qty).pop_front();
        let mid = side.with_level(b, level).decrement_order_count().reduce_qty(qty);
        assert(!mid.occupied(b));
        crate::book::lemma_next_best_ignores_slot(
            side.levels,
            mid.levels,
            side.side,
            b,
        );
        if side.order_count == 1 {
            assert(after.consistent());
            assert(after.order_count == 0);
            crate::book::lemma_count_zero(after.levels);
            if after.best_idx is Some {
                assert(after.occupied(after.best_idx->0 as int));
            }
        }
    }

    /// Pool exhaustion is reported as `Rejected(PoolExhausted)` and leaves
    /// the engine, and with it the pool's active count, as it was.
    pub proof fn law_pool_exhausted_changes_nothing(self, order: Order, timestamp: u64)
        requires
            self.wf(),
            order.wf(),
            self.submit(order, timestamp).1 == (ResultView::Rejected {
                reason: RejectReason::PoolExhausted,
            }),
        ensures
            self.submit(order, timestamp).0 == self,
            self.pool.free.len() == 0,
            self.pool.active == self.pool.capacity,
    {
        let stamped = order.stamped(timestamp);
        self.lemma_cross(stamped);
    }

    /// A rejection leaves the engine as it was whenever no fill was executed
    /// before it. That is so for every rejection by validation, by the
    /// post-only test, by the fill-or-kill test and for want of a pool slot.
    /// It is not so where an order is filled in part and what is left of it
    /// then finds its price outside the book or its level full.
    pub proof fn law_rejection_changes_nothing(self, order: Order, timestamp: u64)
        requires
            self.wf(),
            order.wf(),
            self.submit(order, timestamp).1 is Rejected,
            self.precheck(order) is Some || self.submit(order, timestamp).1->reason
                == RejectReason::PoolExhausted || self.cross(
                order.stamped(timestamp),
            ).fills.len() == 0,
        ensures
            self.submit(order, timestamp).0 == self,
    {
        if self.precheck(order) is None {
            self.lemma_cross(order.stamped(timestamp));
        }
    }

    /// An order that is to rest when no pool slot is free is rejected with
    /// `PoolExhausted`.
    pub proof fn law_exhausted_pool_rejects(self, order: Order, timestamp: u64)
        requires
            self.wf(),
            order.wf(),
            self.precheck(order) is None,
            order.order_type.should_rest(),
            !self.can_match(order.stamped(timestamp)),
            self.pool.free.len() == 0,
        ensures
            self.submit(order, timestamp) == (
                self,
                ResultView::Rejected { reason: RejectReason::PoolExhausted },
            ),
    {
    }

    /// An order that is to rest at a price whose level already holds
    /// `MAX_ORDERS_PER_LEVEL` orders is rejected with `BookFull`, and the
    /// engine stays as it was.
    pub proof fn law_full_level_rejects(self, order: Order, timestamp: u64)
        requires
            self.wf(),
            order.wf(),
            self.precheck(order) is None,
            order.order_type.should_rest(),
            !self.can_match(order.stamped(timestamp)),
            self.pool.free.len() > 0,
            self.book.side(order.side).level_at_price(order.price) matches Some(level)
                && level.handles.len() == MAX_ORDERS_PER_LEVEL,
        ensures
            self.submit(order, timestamp) == (
                self,
                ResultView::Rejected { reason: RejectReason::BookFull },
            ),
    {
    }

    /// The result of a submission carries the fills that were executed, but
    /// no more than the first `MAX_FILLS_PER_ORDER` of them. The engine is
    /// the one in which all of them were executed: its maker side is that of
    /// the crossing loop, and the taker's quantity fell by the total of all
    /// fills, recorded or not.
    pub proof fn law_fills_truncated(self, order: Order, timestamp: u64)
        requires
            self.wf(),
            order.wf(),
            self.precheck(order) is None,
        ensures
            ({
                let crossed = self.cross(order.stamped(timestamp));
                let outcome = self.submit(order, timestamp);
                &&& outcome.0.wf()
                &&& outcome.0.makers(order.side) == crossed.engine.makers(order.side)
                &&& fill_total(crossed.fills) + crossed.taker.remaining_qty.0
                    == order.remaining_qty.0
                &&& match outcome.1 {
                    ResultView::Filled { fills } => fills == recorded(crossed.fills),
                    ResultView::PartialFill { fills, .. } => fills == recorded(crossed.fills),
                    ResultView::Cancelled { fills, .. } => fills == recorded(crossed.fills),
                    ResultView::Resting { .. } => crossed.fills.len() == 0,
                    ResultView::Rejected { .. } => true,
                }
                &&& recorded(crossed.fills).len() <= MAX_FILLS_PER_ORDER
                &&& recorded(crossed.fills) == crossed.fills.take(
                    recorded(crossed.fills).len() as int,
                )
            }),
    {
        let stamped = order.stamped(timestamp);
        self.law_submit_keeps_invariant(order, timestamp);
        self.lemma_cross(stamped);
        let crossed = self.cross(stamped);
        if crossed.taker.remaining_qty.0 != 0 && crossed.taker.order_type.should_rest()
            && crossed.engine.rest_error(crossed.taker) is None {
            crossed.engine.lemma_rest(crossed.taker);
        }
        assert(crossed.fills.take(crossed.fills.len() as int) =~= crossed.fills);
    }

    /// A new engine's aggregates are exact.
    pub proof fn law_new_engine_exact(symbol: SymbolId, capacity: nat, base_price: Price)
        ensures
            EngineView::empty(symbol, capacity, base_price).quantities_exact(),
    {
        SideView::lemma_empty_consistent(Side::Buy, base_price);
        SideView::lemma_empty_consistent(Side::Sell, base_price);
    }

    /// While the aggregates are exact, the total of each side is the sum of
    /// the totals of its levels, and the total of each level is the sum of
    /// the remaining quantities of the orders queued in it.
    pub proof fn law_totals(self, side: Side, i: int)
        requires
            self.wf(),
            self.quantities_exact(),
            0 <= i < MAX_LEVELS,
        ensures
            self.book.side(side).total_qty.0 == sum_qty(self.book.side(side).levels),
            self.book.side(side).levels[i] matches Some(level) ==> level.total_qty.0
                == resting_total(self.pool, level.handles),
    {
    }

    /// A submission keeps the aggregates exact, unless what it brings to
    /// rest pushes the total of its side past `u64::MAX`.
    pub proof fn law_submit_keeps_totals(self, order: Order, timestamp: u64)
        requires
            self.wf(),
            self.quantities_exact(),
            order.wf(),
            self.book.side(order.side).total_qty.0 + order.remaining_qty.0 <= u64::MAX,
        ensures
            self.submit(order, timestamp).0.quantities_exact(),
    {
        self.law_submit_accounts(order, timestamp);
    }

    /// A cancellation keeps the aggregates exact.
    pub proof fn law_cancel_keeps_totals(self, handle: OrderHandle)
        requires
            self.wf(),
            self.quantities_exact(),
            self.pool.is_live(handle),
        ensures
            self.cancel(handle).quantities_exact(),
    {
        self.lemma_cancel_exact(handle);
    }

    /// The quantity that a submission executed: the total of all its fills,
    /// recorded or not.
    pub open spec fn executed(self, order: Order, timestamp: u64) -> nat {
        if self.precheck(order) is None {
            fill_total(self.cross(order.stamped(timestamp)).fills)
        } else {
            0
        }
    }

    /// The quantity that a submission brought to rest.
    pub open spec fn rested(self, order: Order, timestamp: u64) -> nat {
        match self.submit(order, timestamp).1 {
            ResultView::Resting { .. } => order.remaining_qty.0 as nat,
            ResultView::PartialFill { resting_qty, .. } => resting_qty.0 as nat,
            _ => 0,
        }
    }

    /// The quantity of a submission that was neither executed nor brought
    /// to rest: the remainder of a cancelled or rejected order.
    pub open spec fn dropped(self, order: Order, timestamp: u64) -> nat {
        (order.remaining_qty.0 - self.executed(order, timestamp) - self.rested(
            order,
            timestamp,
        )) as nat
    }

    /// One submission accounts for the whole quantity of its order: what
    /// was executed, what came to rest and what was dropped add up to it.
    /// The executed quantity leaves the total of the opposite side, and the
    /// quantity that came to rest joins the total of the order's own side.
    pub proof fn law_submit_accounts(self, order: Order, timestamp: u64)
        requires
            self.wf(),
            self.quantities_exact(),
            order.wf(),
            self.book.side(order.side).total_qty.0 + order.remaining_qty.0 <= u64::MAX,
        ensures
            self.submit(order, timestamp).0.wf(),
            self.submit(order, timestamp).0.quantities_exact(),
            self.executed(order, timestamp) + self.rested(order, timestamp) + self.dropped(
                order,
                timestamp,
            ) == order.remaining_qty.0,
            self.submit(order, timestamp).0.makers(order.side).total_qty.0 + self.executed(
                order,
                timestamp,
            ) == self.makers(order.side).total_qty.0,
            self.submit(order, timestamp).0.book.side(order.side).total_qty.0
                == self.book.side(order.side).total_qty.0 + self.rested(order, timestamp),
    {
        self.law_submit_keeps_invariant(order, timestamp);
        if self.precheck(order) is None {
            let stamped = order.stamped(timestamp);
            self.lemma_cross(stamped);
            self.lemma_cross_exact(stamped);
            let crossed = self.cross(stamped);
            if crossed.taker.remaining_qty.0 != 0 && crossed.taker.order_type.should_rest()
                && crossed.engine.rest_error(crossed.taker) is None {
                crossed.engine.lemma_rest(crossed.taker);
                crossed.engine.lemma_rest_exact(crossed.taker);
            }
        }
    }

    /// Cancelling an order that has just come to rest without a fill gives
    /// back the engine as it was before the order was submitted, provided
    /// that adding the order's quantity did not push the aggregate of its
    /// level or of its side past `u64::MAX`.
    pub proof fn law_cancel_undoes_rest(self, order: Order, timestamp: u64)
        requires
            self.wf(),
            order.wf(),
            self.submit(order, timestamp).1 is Resting,
            self.book.side(order.side).total_qty.0 + order.remaining_qty.0 <= u64::MAX,
            level_qty(self.book.side(order.side).level_at_price(order.price))
                + order.remaining_qty.0 <= u64::MAX,
        ensures
            self.submit(order, timestamp).0.pool.is_live(self.submit(order,
                timestamp).1->Resting_handle),
            self.submit(order, timestamp).0.cancel(self.submit(order, timestamp).1->Resting_handle)
                == self,
    {
        let o = order.stamped(timestamp);
        self.lemma_cross(o);
        let crossed = self.cross(o);
        assert(crossed.fills.len() == 0);
        assert(crossed.engine == self);
        assert(crossed.taker == o);
        self.lemma_rest(o);
        let h = self.next_handle();
        let e1 = self.rest(o);
        assert(self.submit(order, timestamp).0 == e1);
        e1.lemma_cancel(h);
        let e2 = e1.cancel(h);
        let os = o.side;
        let s = self.book.side(os);
        let i = s.price_to_idx(o.price)->0;
        s.lemma_idx_price(o.price);
        let q = o.remaining_qty;

        // The pool.
        assert(!self.pool.orders.dom().contains(h.0)) by {
            assert(self.pool.free[self.pool.free.len() - 1] == h.0);
            assert(self.pool.free.contains(h.0));
        }
        assert(e2.pool.free =~= self.pool.free);
        assert(e2.pool.orders =~= self.pool.orders);
        assert(e2.pool == self.pool);

        // The level of the order.
        let s1 = s.add_order(h, o);
        assert(e1.book.side(os) == s1);
        let s2 = s1.remove_order(h, o.price, q);
        assert(e2.book.side(os) == s2);
        let l0 = s.level_or_new(i);
        let l1 = l0.push_back(h, q);
        assert(s1.levels[i] == Some(l1));
        assert(l1.handles[l0.handles.len() as int] == h);
        assert(l1.handles.contains(h));
        assert(s1.queues(h, o.price));
        assert(!l0.handles.contains(h)) by {
            if l0.handles.contains(h) {
                let k = choose|k: int| 0 <= k < l0.handles.len() && l0.handles[k] == h;
                assert(self.has_slot(os, i, k));
                assert(self.resting_ok(os, i, self.handle_at(os, i, k)));
            }
        }
        lemma_first_index(l1.handles, h);
        let pos = first_index(l1.handles, h);
        assert(pos == l0.handles.len()) by {
            if pos < l0.handles.len() {
                assert(l0.handles[pos] == l1.handles[pos]);
                assert(l0.handles.contains(h));
            }
        }
        assert(l1.handles.remove(pos) =~= l0.handles);
        let l2 = l1.remove(h).reduce_qty(q);
        assert(l2.handles == l0.handles);
        assert(l2.total_qty == l0.total_qty);
        assert(s.consistent());
        let slot = if l2.handles.len() == 0 {
            None
        } else {
            Some(l2)
        };
        assert(slot == s.levels[i]);
        let restored = s1.levels.update(i, slot);
        assert(restored =~= s.levels);
        assert(s2.levels == s.levels);

        // The best index.
        let mid = SideView { levels: restored, ..s1 };
        assert(s2.best_idx == mid.best_after_remove(i));
        match s.best_idx {
            None => {
                assert(!s.occupied(i));
                match s.side {
                    Side::Buy => {
                        lemma_scan_down(s.levels, i);
                        if scan_down(s.levels, i) is Some {
                            assert(!s.occupied(scan_down(s.levels, i)->0 as int));
                        }
                    },
                    Side::Sell => {
                        lemma_scan_up(s.levels, i + 1);
                        if scan_up(s.levels, i + 1) is Some {
                            assert(!s.occupied(scan_up(s.levels, i + 1)->0 as int));
                        }
                    },
                }
            },
            Some(c) => {
                assert(s.occupied(c as int));
                if is_better(s.side, i, c as int) {
                    assert(!s.occupied(i));
                    match s.side {
                        Side::Buy => {
                            lemma_scan_down(s.levels, i);
                            let found = scan_down(s.levels, i);
                            assert(found is Some);
                            if found->0 > c {
                                assert(!s.occupied(found->0 as int));
                            }
                        },
                        Side::Sell => {
                            lemma_scan_up(s.levels, i + 1);
                            let found = scan_up(s.levels, i + 1);
                            assert(found is Some);
                            if found->0 < c {
                                assert(!s.occupied(found->0 as int));
                            }
                        },
                    }
                }
            },
        }
        assert(s2.best_idx == s.best_idx);
        assert(s2 == s);
        assert(e2.book.side(os.opposite()) == self.book.side(os.opposite()));
        assert(e2.book == self.book);
    }
}

/// One submission: an order and the timestamp it is stamped with.
pub struct Submission {
    pub order: Order,
    pub timestamp: u64,
}

/// Total quantity of the orders in `submissions` that are on `side`.
pub open spec fn submitted_on(submissions: Seq<Submission>, side: Side) -> nat
    decreases submissions.len(),
{
    if submissions.len() == 0 {
        0
    } else {
        submitted_on(submissions.drop_last(), side) + (if submissions.last().order.side == side {
            submissions.last().order.remaining_qty.0 as nat
        } else {
            0
        })
    }
}

impl EngineView {
    /// The engine after a sequence of submissions.
    pub open spec fn run(self, submissions: Seq<Submission>) -> EngineView
        decreases submissions.len(),
    {
        if submissions.len() == 0 {
            self
        } else {
            self.run(submissions.drop_last()).submit(
                submissions.last().order,
                submissions.last().timestamp,
            ).0
        }
    }

    /// Total quantity executed by a sequence of submissions.
    pub open spec fn executed_in(self, submissions: Seq<Submission>) -> nat
        decreases submissions.len(),
    {
        if submissions.len() == 0 {
            0
        } else {
            self.executed_in(submissions.drop_last()) + self.run(submissions.drop_last()).executed(
                submissions.last().order,
                submissions.last().timestamp,
            )
        }
    }

    /// Total quantity dropped from the orders on `side` in a sequence of
    /// submissions.
    pub open spec fn dropped_on(self, submissions: Seq<Submission>, side: Side) -> nat
        decreases submissions.len(),
    {
        if submissions.len() == 0 {
            0
        } else {
            self.dropped_on(submissions.drop_last(), side) + (if submissions.last().order.side
                == side {
                self.run(submissions.drop_last()).dropped(
                    submissions.last().order,
                    submissions.last().timestamp,
                )
            } else {
                0
            })
        }
    }

    /// Quantity is conserved on each side over any sequence of submissions:
    /// the total executed, plus what rests on the side afterwards, plus what
    /// was dropped from the side's orders, is what rested on the side before
    /// plus what was submitted on it. From an empty book this says that the
    /// fills add up to the submitted quantity less the resting quantity less
    /// the dropped quantity.
    ///
    /// The statement is about aggregates, so it asks that they start exact
    /// and that all the quantity involved fits in a `u64`.
    pub proof fn law_quantity_conserved(self, submissions: Seq<Submission>, side: Side)
        requires
            self.wf(),
            self.quantities_exact(),
            forall|k: int| 0 <= k < submissions.len() ==> (#[trigger] submissions[k]).order.wf(),
            self.book.bids.total_qty.0 + submitted_on(submissions, Side::Buy) <= u64::MAX,
            self.book.asks.total_qty.0 + submitted_on(submissions, Side::Sell) <= u64::MAX,
        ensures
            self.run(submissions).wf(),
            self.run(submissions).quantities_exact(),
            self.run(submissions).book.side(side).total_qty.0 + self.dropped_on(submissions, side)
                <= self.book.side(side).total_qty.0 + submitted_on(submissions, side),
            self.executed_in(submissions) + self.run(submissions).book.side(side).total_qty.0
                + self.dropped_on(submissions, side) == self.book.side(side).total_qty.0
                + submitted_on(submissions, side),
        decreases submissions.len(),
    {
        if submissions.len() > 0 {
            let front = submissions.drop_last();
            let last = submissions.last();
            assert forall|k: int| 0 <= k < front.len() implies (#[trigger] front[k]).order.wf() by {
                assert(front[k] == submissions[k]);
            }
            assert(last == submissions[submissions.len() - 1]);
            self.law_quantity_conserved(front, Side::Buy);
            self.law_quantity_conserved(front, Side::Sell);
            let before = self.run(front);
            before.law_submit_accounts(last.order, last.timestamp);
        }
    }
}

} // verus!
