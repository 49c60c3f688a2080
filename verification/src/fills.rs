//! Fill records and the bounded buffer that carries them out of a submit.

use vstd::prelude::*;
use arrayvec::ArrayVec;
use crate::fixed::{Price, Quantity};
use crate::order::{OrderId, Side, SymbolId};

verus! {

/// Maximum number of fill records returned for one order.
pub const MAX_FILLS_PER_ORDER: usize = 64;

/// Execution report for a single crossing of a maker and a taker.
#[derive(Clone, Copy, Debug)]
pub struct Fill {
    /// Maker order id.
    pub maker_order_id: OrderId,
    /// Taker order id.
    pub taker_order_id: OrderId,
    /// Execution price.
    pub price: Price,
    /// Execution quantity.
    pub quantity: Quantity,
    /// Maker side.
    pub maker_side: Side,
    /// Symbol.
    pub symbol: SymbolId,
    /// Timestamp.
    pub timestamp: u64,
}

/// Sum of the quantities of a sequence of fills.
pub open spec fn fill_total(fills: Seq<Fill>) -> nat
    decreases fills.len(),
{
    if fills.len() == 0 {
        0
    } else {
        fill_total(fills.drop_last()) + fills.last().quantity.0 as nat
    }
}

/// The fills that fit into one buffer: the first `MAX_FILLS_PER_ORDER`.
pub open spec fn recorded(fills: Seq<Fill>) -> Seq<Fill> {
    if fills.len() <= MAX_FILLS_PER_ORDER {
        fills
    } else {
        fills.take(MAX_FILLS_PER_ORDER as int)
    }
}

/// `arrayvec::ArrayVec`, a vector with inline storage for at most `CAP`
/// elements. Its fields are not visible to the verifier.
#[verifier::external_type_specification]
#[verifier::external_body]
#[verifier::reject_recursive_types(T)]
pub struct ExArrayVec<T, const CAP: usize>(arrayvec::ArrayVec<T, CAP>);

/// The fill records held in a buffer, in the order in which they were
/// pushed.
pub uninterp spec fn fill_seq(fills: ArrayVec<Fill, MAX_FILLS_PER_ORDER>) -> Seq<Fill>;

/// `ArrayVec::new`: trusted to return a buffer that holds nothing.
#[verifier::external_body]
pub(crate) fn fills_new() -> (fills: ArrayVec<Fill, MAX_FILLS_PER_ORDER>)
    ensures
        fill_seq(fills) == Seq::<Fill>::empty(),
{
    ArrayVec::new()
}

/// `ArrayVec::is_full`: trusted to tell whether the buffer holds as many
/// records as its capacity.
#[verifier::external_body]
pub(crate) fn fills_is_full(fills: &ArrayVec<Fill, MAX_FILLS_PER_ORDER>) -> (full: bool)
    ensures
        full == (fill_seq(*fills).len() == MAX_FILLS_PER_ORDER),
{
    fills.is_full()
}

/// `ArrayVec::is_empty`: trusted to tell whether the buffer holds nothing.
#[verifier::external_body]
pub(crate) fn fills_is_empty(fills: &ArrayVec<Fill, MAX_FILLS_PER_ORDER>) -> (empty: bool)
    ensures
        empty == (fill_seq(*fills).len() == 0),
{
    fills.is_empty()
}

/// `ArrayVec::push`: trusted to append the record to a buffer that is not
/// full. On a full buffer it panics, which the precondition rules out.
#[verifier::external_body]
pub(crate) fn fills_push(fills: &mut ArrayVec<Fill, MAX_FILLS_PER_ORDER>, fill: Fill)
    requires
        fill_seq(*old(fills)).len() < MAX_FILLS_PER_ORDER,
    ensures
        fill_seq(*final(fills)) == fill_seq(*old(fills)).push(fill),
{
    fills.push(fill)
}

} // verus!
