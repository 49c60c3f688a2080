//! Mathematical model of the matching engine.
//!
//! The engine is a deterministic state machine. This module says, over the
//! models of the book and the pool, what each of its steps does and which
//! invariant the steps keep.

use vstd::prelude::*;
use crate::fixed::{Price, Quantity};
use crate::order::{Order, OrderType, Side, SymbolId};
use crate::pool::{OrderHandle, PoolView};
use crate::book::{BookView, SideView, MAX_LEVELS};
use crate::fills::{Fill, recorded};

verus! {

/// Rejection reasons.
#[derive(Clone, Copy, Debug, PartialEq, Eq, Structural)]
pub enum RejectReason {
    /// Price is zero on an order that needs one, or outside the range of
    /// the book when the order was to rest.
    InvalidPrice,
    /// Quantity is zero.
    InvalidQuantity,
    /// Order pool exhausted.
    PoolExhausted,
    /// Price level full.
    BookFull,
    /// Post-only order would immediately match.
    PostOnlyWouldMatch,
    /// Symbol not found.
    SymbolNotFound,
    /// Fill-or-kill order cannot be fully filled.
    InsufficientLiquidity,
}

/// Mathematical model of the result of a submission.
pub enum ResultView {
    /// Order fully filled.
    Filled { fills: Seq<Fill> },
    /// Order partially filled, rest resting on the book.
    PartialFill { fills: Seq<Fill>, resting_qty: Quantity, handle: OrderHandle },
    /// Order resting on the book (no matches).
    Resting { handle: OrderHandle },
    /// Order rejected.
    Rejected { reason: RejectReason },
    /// Remainder discarded after matching.
    Cancelled { filled_qty: Quantity, fills: Seq<Fill> },
}

/// The smaller of two quantities.
pub open spec fn min_qty(a: Quantity, b: Quantity) -> Quantity {
    if a.0 < b.0 {
        a
    } else {
        b
    }
}

/// Whether a taker on `side` with limit `price` crosses a best opposite
/// price of `best`: a buy at or above it, a sell at or below it.
pub open spec fn crosses(side: Side, price: Price, best: Price) -> bool {
    match side {
        Side::Buy => price.0 >= best.0,
        Side::Sell => price.0 <= best.0,
    }
}

/// Outcome of the crossing loop: the engine after it, the taker after it,
/// and every fill executed, in order.
pub struct Crossed {
    pub engine: EngineView,
    pub taker: Order,
    pub fills: Seq<Fill>,
}

/// Mathematical model of a matching engine.
pub struct EngineView {
    /// The order book.
    pub book: BookView,
    /// The order pool.
    pub pool: PoolView,
    /// The symbol of this engine.
    pub symbol: SymbolId,
}

impl EngineView {
    /// A new engine: an empty book over `base_price` and a pool of
    /// `capacity` free slots.
    pub open spec fn empty(symbol: SymbolId, capacity: nat, base_price: Price) -> EngineView {
        EngineView {
            book: BookView::empty(base_price),
            pool: PoolView::fresh(capacity),
            symbol,
        }
    }

    /// The side that a taker on `taker_side` matches against.
    pub open spec fn makers(self, taker_side: Side) -> SideView {
        self.book.side(taker_side.opposite())
    }

    /// The handle at position `k` of the level at index `i` of `side`.
    pub open spec fn handle_at(self, side: Side, i: int, k: int) -> OrderHandle {
        self.book.side(side).levels[i]->0.handles[k]
    }

    /// Position `k` of the level at index `i` of `side` exists.
    pub open spec fn has_slot(self, side: Side, i: int, k: int) -> bool {
        &&& 0 <= i < MAX_LEVELS
        &&& self.book.side(side).levels[i] matches Some(level) && 0 <= k < level.handles.len()
    }

    /// The order under `handle` is live, belongs to the level at index `i`
    /// of `side` by its side and price, and has quantity left.
    pub open spec fn resting_ok(self, side: Side, i: int, handle: OrderHandle) -> bool {
        &&& self.pool.is_live(handle)
        &&& self.pool.order(handle).side == side
        &&& self.book.side(side).price_to_idx(self.pool.order(handle).price) == Some(i)
        &&& 0 < self.pool.order(handle).remaining_qty.0 <= self.pool.order(handle).original_qty.0
    }

    /// Every queued handle stands for a live order that belongs where it is
    /// queued, and no level queues a handle twice.
    pub open spec fn levels_sound(self, side: Side) -> bool {
        &&& forall|i: int, k: int| #[trigger]
            self.has_slot(side, i, k) ==> self.resting_ok(side, i, self.handle_at(side, i, k))
        &&& forall|i: int|
            0 <= i < MAX_LEVELS
                ==> ((#[trigger] self.book.side(side).levels[i]) matches Some(level)
                ==> level.handles.no_duplicates())
    }

    /// Every live order is queued in the level of its side and price.
    pub open spec fn orders_queued(self) -> bool {
        forall|h: u32| #[trigger]
            self.pool.orders.dom().contains(h) ==> self.book.side(self.pool.orders[h].side).queues(
                OrderHandle(h),
                self.pool.orders[h].price,
            )
    }

    /// The invariant of the engine. It holds of a new engine and after every
    /// submission and cancellation.
    ///
    /// - The pool accounts for every slot: active count plus free-stack depth
    ///   is the capacity.
    /// - On each side the best index is absent exactly when every level is
    ///   empty, and otherwise points at the best occupied level; the order
    ///   count is the number of queued handles.
    /// - Every queued handle is live and queued exactly once, in the level of
    ///   its order's side and price, and every live order is queued.
    pub open spec fn wf(self) -> bool {
        &&& self.pool.wf()
        &&& self.book.wf()
        &&& self.book.bids.consistent()
        &&& self.book.asks.consistent()
        &&& self.levels_sound(Side::Buy)
        &&& self.levels_sound(Side::Sell)
        &&& self.orders_queued()
    }

    /// Whether the crossing loop executes another fill: the taker has
    /// quantity left and its price crosses the best opposite price.
    pub open spec fn can_match(self, taker: Order) -> bool {
        &&& taker.remaining_qty.0 > 0
        &&& self.makers(taker.side).best_price() matches Some(best) && crosses(
            taker.side,
            taker.price,
            best,
        )
    }

    /// The handle of the maker that is next to execute against a taker on
    /// `taker_side`: the front of the best opposite level.
    pub open spec fn front_maker(self, taker_side: Side) -> OrderHandle {
        self.makers(taker_side).best_level()->0.handles[0]
    }

    /// The quantity of the next execution: the smaller of the two remaining
    /// quantities.
    pub open spec fn next_qty(self, taker: Order) -> Quantity {
        min_qty(taker.remaining_qty, self.pool.order(self.front_maker(taker.side)).remaining_qty)
    }

    /// The record of the next execution. The price is that of the best
    /// opposite level.
    pub open spec fn next_fill(self, taker: Order) -> Fill {
        let maker = self.pool.order(self.front_maker(taker.side));
        Fill {
            maker_order_id: maker.order_id,
            taker_order_id: taker.order_id,
            price: self.makers(taker.side).best_price()->0,
            quantity: self.next_qty(taker),
            maker_side: maker.side,
            symbol: taker.symbol,
            timestamp: taker.timestamp,
        }
    }

    /// The engine after one execution of `taker` against the front maker.
    pub open spec fn match_one(self, taker: Order) -> EngineView {
        let handle = self.front_maker(taker.side);
        let qty = self.next_qty(taker);
        let maker_done = self.pool.order(handle).filled_by(qty).remaining_qty.0 == 0;
        EngineView {
            book: self.book.with_side(
                taker.side.opposite(),
                self.makers(taker.side).after_fill(qty, maker_done),
            ),
            pool: self.pool.after_fill(handle, qty),
            ..self
        }
    }

    /// The crossing loop. While the taker has quantity left and crosses the
    /// best opposite price, it executes against the front maker of the best
    /// opposite level: best price first, and first come first served within
    /// a price.
    ///
    /// In an engine that satisfies `wf` every execution has a positive
    /// quantity (see `lemma_front_maker`), so the loop only ends when the
    /// taker is filled or nothing crosses any more.
    pub open spec fn cross(self, taker: Order) -> Crossed
        decreases taker.remaining_qty.0,
    {
        if self.can_match(taker) {
            let fill = self.next_fill(taker);
            let after = taker.filled_by(fill.quantity);
            if after.remaining_qty.0 < taker.remaining_qty.0 {
                let rest = self.match_one(taker).cross(after);
                Crossed { fills: seq![fill] + rest.fills, ..rest }
            } else {
                Crossed { engine: self.match_one(taker), taker: after, fills: seq![fill] }
            }
        } else {
            Crossed { engine: self, taker, fills: Seq::empty() }
        }
    }

    /// The fill-or-kill test: the order crosses the best opposite price and
    /// the best opposite level alone caches at least the order's quantity.
    pub open spec fn can_fill_completely(self, order: Order) -> bool {
        let side = self.makers(order.side);
        &&& side.best_price() matches Some(best) && crosses(order.side, order.price, best)
        &&& side.best_level() matches Some(level) && level.total_qty.0 >= order.remaining_qty.0
    }

    /// Why `order` cannot rest, if it cannot: no free pool slot, a price
    /// outside the book's range, or a full level, in this order.
    pub open spec fn rest_error(self, order: Order) -> Option<RejectReason> {
        let side = self.book.side(order.side);
        if self.pool.free.len() == 0 {
            Some(RejectReason::PoolExhausted)
        } else if side.price_to_idx(order.price) is None {
            Some(RejectReason::InvalidPrice)
        } else if !side.can_add(order) {
            Some(RejectReason::BookFull)
        } else {
            None
        }
    }

    /// The handle under which the next order rests: the top of the free
    /// stack.
    pub open spec fn next_handle(self) -> OrderHandle {
        OrderHandle(self.pool.free.last())
    }

    /// The engine after `order` has come to rest under `next_handle`.
    pub open spec fn rest(self, order: Order) -> EngineView {
        let handle = self.next_handle();
        EngineView {
            book: self.book.with_side(
                order.side,
                self.book.side(order.side).add_order(handle, order),
            ),
            pool: self.pool.allocate().insert(handle, order),
            ..self
        }
    }

    /// The rejection that validation gives `order` before anything is
    /// matched, if any.
    pub open spec fn precheck(self, order: Order) -> Option<RejectReason> {
        if order.remaining_qty.0 == 0 {
            Some(RejectReason::InvalidQuantity)
        } else if order.price.0 == 0 && order.order_type != OrderType::IOC {
            Some(RejectReason::InvalidPrice)
        } else if order.order_type == OrderType::PostOnly && self.makers(order.side).would_match(
            order.price,
            order.side,
        ) {
            Some(RejectReason::PostOnlyWouldMatch)
        } else if order.order_type == OrderType::FOK && !self.can_fill_completely(order) {
            Some(RejectReason::InsufficientLiquidity)
        } else {
            None
        }
    }

    /// What becomes of the taker once the crossing loop has ended.
    pub open spec fn settle(crossed: Crossed) -> (EngineView, ResultView) {
        let engine = crossed.engine;
        let taker = crossed.taker;
        let fills = recorded(crossed.fills);
        if taker.remaining_qty.0 == 0 {
            (engine, ResultView::Filled { fills })
        } else if !taker.order_type.should_rest() {
            (
                engine,
                ResultView::Cancelled {
                    filled_qty: Quantity((taker.original_qty.0 - taker.remaining_qty.0) as u64),
                    fills,
                },
            )
        } else {
            match engine.rest_error(taker) {
                Some(reason) => (engine, ResultView::Rejected { reason }),
                None => if fills.len() == 0 {
                    (engine.rest(taker), ResultView::Resting { handle: engine.next_handle() })
                } else {
                    (
                        engine.rest(taker),
                        ResultView::PartialFill {
                            fills,
                            resting_qty: taker.remaining_qty,
                            handle: engine.next_handle(),
                        },
                    )
                },
            }
        }
    }

    /// A submission: validate, stamp the timestamp, cross, settle.
    pub open spec fn submit(self, order: Order, timestamp: u64) -> (EngineView, ResultView) {
        match self.precheck(order) {
            Some(reason) => (self, ResultView::Rejected { reason }),
            None => Self::settle(self.cross(order.stamped(timestamp))),
        }
    }

    /// The engine after the live order under `handle` has been cancelled:
    /// the order leaves its level, the counters of its side follow, and its
    /// pool slot is free again.
    pub open spec fn cancel(self, handle: OrderHandle) -> EngineView {
        let order = self.pool.order(handle);
        EngineView {
            book: self.book.with_side(
                order.side,
                self.book.side(order.side).remove_order(handle, order.price, order.remaining_qty),
            ),
            pool: self.pool.deallocate(handle),
            ..self
        }
    }
}

} // verus!
