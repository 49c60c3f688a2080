//! Synthetic order flow for replay runs.

use vstd::prelude::*;
use crate::fixed::{Price, Quantity};
use crate::order::{Order, OrderId, OrderType, Side, SymbolId};

verus! {

/// Generator of synthetic orders with ascending ids, starting at one.
pub struct OrderGenerator {
    next_id: u64,
    symbol: SymbolId,
}

impl OrderGenerator {
    /// The id that the next order gets.
    pub closed spec fn spec_next_id(&self) -> u64 {
        self.next_id
    }

    /// The symbol of the orders.
    pub closed spec fn spec_symbol(&self) -> SymbolId {
        self.symbol
    }

    /// The id that the next order gets.
    #[verifier::when_used_as_spec(spec_next_id)]
    pub fn next_id(&self) -> (id: u64)
        ensures
            id == self.spec_next_id(),
    {
        self.next_id
    }

    /// The symbol of the orders.
    #[verifier::when_used_as_spec(spec_symbol)]
    pub fn symbol(&self) -> (symbol: SymbolId)
        ensures
            symbol == self.spec_symbol(),
    {
        self.symbol
    }

    /// Whether `order` is the order that a generator in state `before`
    /// makes for the given side, type, price in ticks and quantity.
    pub open spec fn makes(
        before: &OrderGenerator,
        order: Order,
        side: Side,
        order_type: OrderType,
        ticks: u64,
        qty: u64,
    ) -> bool {
        &&& order.order_id == OrderId(before.next_id())
        &&& order.symbol == before.symbol()
        &&& order.side == side
        &&& order.order_type == order_type
        &&& order.price == Price::spec_from_ticks(ticks)
        &&& order.original_qty == Quantity(qty)
        &&& order.remaining_qty == Quantity(qty)
        &&& order.timestamp == 0
        &&& order.flags == 0
        &&& order.padding@ == Seq::new(17, |i: int| 0u8)
    }

    /// Create a generator for `symbol`.
    pub fn new(symbol: SymbolId) -> (generator: Self)
        ensures
            generator.next_id() == 1,
            generator.symbol() == symbol,
    {
        OrderGenerator { next_id: 1, symbol }
    }

    /// Make the next order.
    fn next_order(&mut self, side: Side, order_type: OrderType, price: u64, qty: u64) -> (order:
        Order)
        requires
            old(self).next_id() < u64::MAX,
        ensures
            Self::makes(old(self), order, side, order_type, price, qty),
            final(self).next_id() == old(self).next_id() + 1,
            final(self).symbol() == old(self).symbol(),
    {
        let id = self.next_id;
        self.next_id = self.next_id + 1;
        Order::new(
            OrderId(id),
            self.symbol,
            side,
            order_type,
            Price::from_ticks(price),
            Quantity(qty),
            0,
        )
    }

    /// Make a limit buy order at `price` ticks.
    pub fn next_buy(&mut self, price: u64, qty: u64) -> (order: Order)
        requires
            old(self).next_id() < u64::MAX,
        ensures
            Self::makes(old(self), order, Side::Buy, OrderType::Limit, price, qty),
            final(self).next_id() == old(self).next_id() + 1,
            final(self).symbol() == old(self).symbol(),
    {
        self.next_order(Side::Buy, OrderType::Limit, price, qty)
    }

    /// Make a limit sell order at `price` ticks.
    pub fn next_sell(&mut self, price: u64, qty: u64) -> (order: Order)
        requires
            old(self).next_id() < u64::MAX,
        ensures
            Self::makes(old(self), order, Side::Sell, OrderType::Limit, price, qty),
            final(self).next_id() == old(self).next_id() + 1,
            final(self).symbol() == old(self).symbol(),
    {
        self.next_order(Side::Sell, OrderType::Limit, price, qty)
    }

    /// Make an immediate-or-cancel buy order at `price` ticks.
    pub fn next_ioc_buy(&mut self, price: u64, qty: u64) -> (order: Order)
        requires
            old(self).next_id() < u64::MAX,
        ensures
            Self::makes(old(self), order, Side::Buy, OrderType::IOC, price, qty),
            final(self).next_id() == old(self).next_id() + 1,
            final(self).symbol() == old(self).symbol(),
    {
        self.next_order(Side::Buy, OrderType::IOC, price, qty)
    }
}

} // verus!
