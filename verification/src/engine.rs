//! Matching engine: submission and cancellation under price-time priority.

use vstd::prelude::*;
use vstd::arithmetic::power2::{pow2, lemma2_to64, lemma_pow2_strictly_increases};
use arrayvec::ArrayVec;
use crate::fixed::{Price, Quantity};
use crate::order::{Order, OrderType, Side, SymbolId};
use crate::pool::{OrderHandle, OrderPool, MAX_POOL_BITS};
use crate::book::OrderBook;
use crate::fills::{
    Fill,
    MAX_FILLS_PER_ORDER,
    fill_seq,
    fills_is_empty,
    fills_is_full,
    fills_new,
    fills_push,
    recorded,
};
use crate::model::{EngineView, RejectReason, ResultView};

verus! {

/// Result of order submission.
#[derive(Debug)]
pub enum OrderResult {
    /// Order fully filled.
    Filled { fills: ArrayVec<Fill, MAX_FILLS_PER_ORDER> },
    /// Order partially filled, rest resting on the book.
    PartialFill {
        fills: ArrayVec<Fill, MAX_FILLS_PER_ORDER>,
        resting_qty: Quantity,
        handle: OrderHandle,
    },
    /// Order resting on the book (no matches).
    Resting { handle: OrderHandle },
    /// Order rejected.
    Rejected { reason: RejectReason },
    /// Remainder of an immediate-or-cancel or fill-or-kill order discarded.
    Cancelled { filled_qty: Quantity, fills: ArrayVec<Fill, MAX_FILLS_PER_ORDER> },
}

impl View for OrderResult {
    type V = ResultView;

    open spec fn view(&self) -> ResultView {
        match *self {
            OrderResult::Filled { fills } => ResultView::Filled { fills: fill_seq(fills) },
            OrderResult::PartialFill { fills, resting_qty, handle } => ResultView::PartialFill {
                fills: fill_seq(fills),
                resting_qty,
                handle,
            },
            OrderResult::Resting { handle } => ResultView::Resting { handle },
            OrderResult::Rejected { reason } => ResultView::Rejected { reason },
            OrderResult::Cancelled { filled_qty, fills } => ResultView::Cancelled {
                filled_qty,
                fills: fill_seq(fills),
            },
        }
    }
}

/// The matching engine for one symbol: an order book and the pool that
/// stores its resting orders.
pub struct MatchingEngine {
    /// The order book.
    pub book: OrderBook,
    /// The order pool.
    pub pool: OrderPool,
    /// Symbol for this engine.
    pub symbol: SymbolId,
}

impl View for MatchingEngine {
    type V = EngineView;

    open spec fn view(&self) -> EngineView {
        EngineView { book: self.book@, pool: self.pool@, symbol: self.symbol }
    }
}

impl MatchingEngine {
    /// The engine invariant: book and pool are well formed and agree with
    /// each other in the way `EngineView::wf` says.
    pub open spec fn wf(&self) -> bool {
        &&& self.book.wf()
        &&& self.pool.wf()
        &&& self@.wf()
    }

    /// Create a new matching engine.
    ///
    /// `pool_bits` is the base-two logarithm of the pool capacity;
    /// `base_price` is the lowest price that the book can hold.
    pub fn new(symbol: SymbolId, pool_bits: u32, base_price: Price) -> (engine: Self)
        requires
            pool_bits <= MAX_POOL_BITS,
        ensures
            engine.wf(),
            engine@ == EngineView::empty(symbol, pow2(pool_bits as nat), base_price),
    {
        proof {
            lemma2_to64();
            if pool_bits < MAX_POOL_BITS {
                lemma_pow2_strictly_increases(pool_bits as nat, MAX_POOL_BITS as nat);
            }
            EngineView::lemma_empty_wf(symbol, pow2(pool_bits as nat), base_price);
        }
        MatchingEngine {
            book: OrderBook::new(base_price),
            pool: OrderPool::new(pool_bits),
            symbol,
        }
    }

    /// Submit an order to the matching engine.
    ///
    /// The order is validated, stamped with `timestamp`, crossed against the
    /// opposite side of the book, and then settled according to its type:
    /// what is left of a limit or post-only order rests on the book, what is
    /// left of an immediate-or-cancel or fill-or-kill order is discarded.
    pub fn submit_order(&mut self, order: Order, timestamp: u64) -> (result: OrderResult)
        requires
            old(self).wf(),
            order.wf(),
        ensures
            final(self).wf(),
            (final(self)@, result@) == old(self)@.submit(order, timestamp),
    {
        if order.remaining_qty.is_zero() {
            return OrderResult::Rejected { reason: RejectReason::InvalidQuantity };
        }
        let is_ioc = match order.order_type {
            OrderType::IOC => true,
            _ => false,
        };
        if order.price.is_zero() && !is_ioc {
            return OrderResult::Rejected { reason: RejectReason::InvalidPrice };
        }
        let mut order = order;
        order.timestamp = timestamp;

        match order.order_type {
            OrderType::PostOnly => {
                let opposite_side = self.book.side(order.side.opposite());
                if opposite_side.would_match(order.price, order.side) {
                    return OrderResult::Rejected { reason: RejectReason::PostOnlyWouldMatch };
                }
            },
            OrderType::FOK => {
                if !self.can_fill_completely(&order) {
                    return OrderResult::Rejected { reason: RejectReason::InsufficientLiquidity };
                }
            },
            _ => {},
        }

        let ghost stamped = order;
        let mut fills = fills_new();
        self.match_order(&mut order, &mut fills);
        proof {
            old(self)@.lemma_cross(stamped);
        }

        if order.remaining_qty.is_zero() {
            return OrderResult::Filled { fills };
        }
        match order.order_type {
            OrderType::IOC | OrderType::FOK => OrderResult::Cancelled {
                filled_qty: order.filled_qty(),
                fills,
            },
            OrderType::Limit | OrderType::PostOnly => {
                match self.add_to_book(order) {
                    Ok(handle) => {
                        if fills_is_empty(&fills) {
                            OrderResult::Resting { handle }
                        } else {
                            OrderResult::PartialFill {
                                fills,
                                resting_qty: order.remaining_qty,
                                handle,
                            }
                        }
                    },
                    Err(reason) => OrderResult::Rejected { reason },
                }
            },
        }
    }

    /// Check if a fill-or-kill order can be filled completely.
    ///
    /// Only the best opposite level is consulted.
    fn can_fill_completely(&self, order: &Order) -> (can: bool)
        requires
            self.wf(),
        ensures
            can == self@.can_fill_completely(*order),
    {
        let opposite_side = self.book.side(order.side.opposite());
        match opposite_side.best_price() {
            Some(best_price) => {
                let crosses = match order.side {
                    Side::Buy => order.price.0 >= best_price.0,
                    Side::Sell => order.price.0 <= best_price.0,
                };
                if crosses {
                    match opposite_side.best_level() {
                        Some(level) => level.total_qty().0 >= order.remaining_qty.0,
                        None => false,
                    }
                } else {
                    false
                }
            },
            None => false,
        }
    }

    /// The crossing loop: execute against the best opposite level, front
    /// first, until the taker is filled or nothing crosses any more.
    ///
    /// Every execution changes the book; only the first
    /// `MAX_FILLS_PER_ORDER` of them are recorded in `fills`.
    fn match_order(&mut self, order: &mut Order, fills: &mut ArrayVec<Fill, MAX_FILLS_PER_ORDER>)
        requires
            old(self).wf(),
            fill_seq(*old(fills)).len() == 0,
        ensures
            final(self).wf(),
            final(self)@ == old(self)@.cross(*old(order)).engine,
            *final(order) == old(self)@.cross(*old(order)).taker,
            fill_seq(*final(fills)) == recorded(old(self)@.cross(*old(order)).fills),
    {
        let ghost goal = old(self)@.cross(*old(order));
        let ghost mut executed: Seq<Fill> = Seq::empty();
        assert(executed + goal.fills =~= goal.fills);
        loop
            invariant
                self.wf(),
                goal.engine == self@.cross(*order).engine,
                goal.taker == self@.cross(*order).taker,
                goal.fills == executed + self@.cross(*order).fills,
                fill_seq(*fills) == recorded(executed),
            ensures
                self.wf(),
                goal.engine == self@,
                goal.taker == *order,
                fill_seq(*fills) == recorded(goal.fills),
            decreases order.remaining_qty.0,
        {
            if order.remaining_qty.is_zero() {
                assert(executed + Seq::<Fill>::empty() =~= executed);
                break ;
            }
            let maker_side = order.side.opposite();
            let best_price = match self.book.side(maker_side).best_price() {
                Some(price) => price,
                None => {
                    assert(executed + Seq::<Fill>::empty() =~= executed);
                    break ;
                },
            };
            let crosses = match order.side {
                Side::Buy => order.price.0 >= best_price.0,
                Side::Sell => order.price.0 <= best_price.0,
            };
            if !crosses {
                assert(executed + Seq::<Fill>::empty() =~= executed);
                break ;
            }
            let ghost before = self@;
            let ghost taker = *order;
            proof {
                before.lemma_front_maker(taker);
                before.lemma_match_one(taker);
                let rest = before.match_one(taker).cross(
                    taker.filled_by(before.next_fill(taker).quantity),
                );
                assert(executed + (seq![before.next_fill(taker)] + rest.fills) =~= executed.push(
                    before.next_fill(taker),
                ) + rest.fills);
            }
            match self.match_one_at_best(maker_side, order, best_price) {
                Some(fill) => {
                    if !fills_is_full(fills) {
                        fills_push(fills, fill);
                    }
                    proof {
                        executed = executed.push(fill);
                    }
                },
                None => {
                    self.book.side_mut(maker_side).find_next_best();
                },
            }
        }
    }

    /// Execute the taker against the maker at the front of the best level of
    /// `maker_side`, at `exec_price`, the price of that level.
    ///
    /// The quantity is the smaller of the two remaining quantities. A maker
    /// left without quantity leaves its level and gives its pool slot back,
    /// and the best index moves on if the level is exhausted.
    fn match_one_at_best(&mut self, maker_side: Side, taker: &mut Order, exec_price: Price)
        -> (fill:
        Option<Fill>)
        requires
            old(self).wf(),
            old(self)@.can_match(*old(taker)),
            maker_side == old(taker).side.opposite(),
            Some(exec_price) == old(self)@.makers(old(taker).side).best_price(),
        ensures
            final(self).wf(),
            fill == Some(old(self)@.next_fill(*old(taker))),
            final(self)@ == old(self)@.match_one(*old(taker)),
            *final(taker) == old(taker).filled_by(old(self)@.next_qty(*old(taker))),
    {
        let ghost before = self@;
        proof {
            before.lemma_front_maker(*taker);
            before.lemma_match_one(*taker);
        }
        let maker_handle = match self.book.side(maker_side).best_level() {
            Some(level) => match level.front() {
                Some(handle) => handle,
                None => {
                    return None;
                },
            },
            None => {
                return None;
            },
        };
        let maker = self.pool.get_mut(maker_handle);
        let fill_qty = taker.remaining_qty.min(maker.remaining_qty);
        let fill = Fill {
            maker_order_id: maker.order_id,
            taker_order_id: taker.order_id,
            price: exec_price,
            quantity: fill_qty,
            maker_side: maker.side,
            symbol: taker.symbol,
            timestamp: taker.timestamp,
        };
        taker.fill(fill_qty);
        maker.fill(fill_qty);
        let maker_done = maker.is_filled();

        let side = self.book.side_mut(maker_side);
        let ghost side_before = side@;
        let mut exhausted = false;
        match side.best_level_mut() {
            Some(level) => {
                level.reduce_qty(fill_qty);
                if maker_done {
                    let _ = level.pop_front();
                }
                exhausted = level.is_empty();
            },
            None => {},
        }
        if maker_done {
            side.decrement_order_count();
        }
        side.reduce_qty(fill_qty);
        if exhausted {
            side.find_next_best();
        }
        proof {
            assert(side@ == side_before.after_fill(fill_qty, maker_done));
        }
        if maker_done {
            self.pool.deallocate(maker_handle);
        }
        Some(fill)
    }

    /// Bring what is left of an order to rest: take a pool slot, store the
    /// order, and queue its handle at its price.
    ///
    /// Fails, changing nothing, with `PoolExhausted` if no slot is free,
    /// with `InvalidPrice` if the price is outside the range of the book, and
    /// with `BookFull` if the level at that price is full.
    fn add_to_book(&mut self, order: Order) -> (handle: Result<OrderHandle, RejectReason>)
        requires
            old(self).wf(),
            0 < order.remaining_qty.0 <= order.original_qty.0,
        ensures
            final(self).wf(),
            match old(self)@.rest_error(order) {
                Some(reason) => handle == Err::<OrderHandle, RejectReason>(reason) && final(self)@
                    == old(self)@,
                None => handle == Ok::<OrderHandle, RejectReason>(old(self)@.next_handle())
                    && final(self)@ == old(self)@.rest(order),
            },
    {
        let ghost before = self@;
        let handle = match self.pool.allocate() {
            Some(handle) => handle,
            None => {
                return Err(RejectReason::PoolExhausted);
            },
        };
        proof {
            before.pool.lemma_allocate_wf();
            if before.rest_error(order) is None {
                before.lemma_rest(order);
            } else {
                before.book.side(order.side).lemma_count_bound();
            }
        }
        self.pool.insert(handle, order);
        let book_side = self.book.side_mut(order.side);
        let in_range = book_side.in_range(order.price);
        if book_side.add_order(handle, &order) {
            Ok(handle)
        } else {
            self.pool.deallocate(handle);
            proof {
                assert(self.pool@.free =~= before.pool.free);
                assert(self.pool@.orders =~= before.pool.orders);
            }
            if in_range {
                Err(RejectReason::BookFull)
            } else {
                Err(RejectReason::InvalidPrice)
            }
        }
    }

    /// Cancel the order under `handle`.
    ///
    /// A live order leaves its price level, the counters of its side follow,
    /// its pool slot is freed, and the order is returned as it last rested.
    /// For any other handle nothing changes and `None` is returned.
    pub fn cancel_order(&mut self, handle: OrderHandle) -> (cancelled: Option<Order>)
        requires
            old(self).wf(),
        ensures
            final(self).wf(),
            old(self)@.pool.is_live(handle) ==> cancelled == Some(old(self)@.pool.order(handle))
                && final(self)@ == old(self)@.cancel(handle),
            !old(self)@.pool.is_live(handle) ==> cancelled is None && final(self)@ == old(self)@,
    {
        if !handle.is_valid() {
            return None;
        }
        if !self.pool.contains(handle) {
            return None;
        }
        let order = *self.pool.get(handle);
        proof {
            self@.lemma_cancel(handle);
        }
        let book_side = self.book.side_mut(order.side);
        let _ = book_side.remove_order(handle, order.price, order.remaining_qty);
        self.pool.deallocate(handle);
        Some(order)
    }

    /// Get the order under `handle`, if it is live.
    pub fn get_order(&self, handle: OrderHandle) -> (order: Option<&Order>)
        requires
            self.wf(),
        ensures
            match order {
                Some(o) => self@.pool.is_live(handle) && *o == self@.pool.order(handle),
                None => !self@.pool.is_live(handle),
            },
    {
        if handle.is_valid() && self.pool.contains(handle) {
            Some(self.pool.get(handle))
        } else {
            None
        }
    }

    /// Get pool statistics: the number of live orders and the capacity.
    pub fn pool_stats(&self) -> (stats: (usize, usize))
        ensures
            stats.0 == self@.pool.active,
            stats.1 == self@.pool.capacity,
    {
        (self.pool.active(), self.pool.capacity())
    }
}

} // verus!
