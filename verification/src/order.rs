//! Order records and their small enumerations.

use vstd::prelude::*;
use crate::fixed::{Price, Quantity, sat_sub};

verus! {

/// Side of the order book.
#[derive(Clone, Copy, Debug, PartialEq, Eq, Structural, Hash)]
pub enum Side {
    /// Bid side (buyers).
    Buy,
    /// Ask side (sellers).
    Sell,
}

impl Side {
    /// The other side.
    pub open spec fn spec_opposite(self) -> Side {
        match self {
            Side::Buy => Side::Sell,
            Side::Sell => Side::Buy,
        }
    }

    /// Get the opposite side.
    #[verifier::when_used_as_spec(spec_opposite)]
    pub fn opposite(self) -> (other: Self)
        ensures
            other == self.spec_opposite(),
    {
        match self {
            Side::Buy => Side::Sell,
            Side::Sell => Side::Buy,
        }
    }

    /// Check if this is the buy side.
    pub fn is_buy(self) -> (b: bool)
        ensures
            b == (self == Side::Buy),
    {
        match self {
            Side::Buy => true,
            Side::Sell => false,
        }
    }

    /// Check if this is the sell side.
    pub fn is_sell(self) -> (b: bool)
        ensures
            b == (self == Side::Sell),
    {
        match self {
            Side::Buy => false,
            Side::Sell => true,
        }
    }
}

/// Order type (time in force).
#[derive(Clone, Copy, Debug, PartialEq, Eq, Structural, Hash)]
pub enum OrderType {
    /// Rests on the book until filled or cancelled.
    Limit,
    /// Immediate-or-cancel: fill what is possible, cancel the rest.
    IOC,
    /// Fill-or-kill: fill entirely or reject entirely.
    FOK,
    /// Post-only: rejected if it would match immediately.
    PostOnly,
}

impl OrderType {
    /// Whether an unfilled remainder of this type rests on the book.
    pub open spec fn spec_should_rest(self) -> bool {
        self == OrderType::Limit || self == OrderType::PostOnly
    }

    /// Check if the order should rest on the book after a partial fill.
    #[verifier::when_used_as_spec(spec_should_rest)]
    pub fn should_rest(self) -> (rests: bool)
        ensures
            rests == self.spec_should_rest(),
    {
        match self {
            OrderType::Limit => true,
            OrderType::PostOnly => true,
            OrderType::IOC => false,
            OrderType::FOK => false,
        }
    }
}

/// Symbol identifier, interned before order entry.
#[derive(Clone, Copy, Debug, PartialEq, Eq, Structural, Hash)]
pub struct SymbolId(pub u32);

impl SymbolId {
    /// The invalid (unset) symbol.
    pub fn invalid() -> (s: Self)
        ensures
            s == SymbolId(u32::MAX),
    {
        SymbolId(u32::MAX)
    }
}

impl Default for SymbolId {
    fn default() -> (s: Self)
        ensures
            s == SymbolId(0),
    {
        SymbolId(0)
    }
}

/// Client-assigned order identifier; zero is reserved as invalid.
#[derive(Clone, Copy, Debug, PartialEq, Eq, Structural, Hash)]
pub struct OrderId(pub u64);

impl OrderId {
    /// The invalid (unset) order id.
    pub fn invalid() -> (id: Self)
        ensures
            id == OrderId(0),
    {
        OrderId(0)
    }

    /// Check if the order id is valid.
    pub fn is_valid(self) -> (v: bool)
        ensures
            v == (self.0 != 0),
    {
        self.0 != 0
    }
}

impl Default for OrderId {
    fn default() -> (id: Self)
        ensures
            id == OrderId(0),
    {
        OrderId(0)
    }
}

/// An order record: 47 bytes of fields padded to 64.
#[derive(Clone, Copy, Debug)]
pub struct Order {
    /// Order price.
    pub price: Price,
    /// Remaining quantity to fill.
    pub remaining_qty: Quantity,
    /// Unique order identifier.
    pub order_id: OrderId,
    /// Timestamp assigned on submission.
    pub timestamp: u64,
    /// Original quantity when the order was placed.
    pub original_qty: Quantity,
    /// Symbol identifier.
    pub symbol: SymbolId,
    /// Order side.
    pub side: Side,
    /// Order type.
    pub order_type: OrderType,
    /// Bit flags for special handling.
    pub flags: u8,
    /// Zeroed filler that rounds the record up to 64 bytes.
    pub padding: [u8; 17],
}

impl Order {
    /// The remaining quantity never exceeds the original quantity.
    pub open spec fn wf(&self) -> bool {
        self.remaining_qty.0 <= self.original_qty.0
    }

    /// This order with `qty` taken off its remaining quantity.
    pub open spec fn filled_by(self, qty: Quantity) -> Order {
        Order { remaining_qty: Quantity(sat_sub(self.remaining_qty.0, qty.0)), ..self }
    }

    /// This order with another timestamp.
    pub open spec fn stamped(self, timestamp: u64) -> Order {
        Order { timestamp, ..self }
    }

    /// Create a new order with nothing filled yet.
    pub fn new(
        order_id: OrderId,
        symbol: SymbolId,
        side: Side,
        order_type: OrderType,
        price: Price,
        qty: Quantity,
        timestamp: u64,
    ) -> (order: Self)
        ensures
            order.order_id == order_id,
            order.symbol == symbol,
            order.side == side,
            order.order_type == order_type,
            order.price == price,
            order.original_qty == qty,
            order.remaining_qty == qty,
            order.timestamp == timestamp,
            order.flags == 0,
            order.padding@ == Seq::new(17, |i: int| 0u8),
            order.wf(),
    {
        Order {
            price,
            remaining_qty: qty,
            order_id,
            timestamp,
            original_qty: qty,
            symbol,
            side,
            order_type,
            flags: 0,
            padding: [0u8; 17],
        }
    }

    /// Check if the order is completely filled.
    pub fn is_filled(&self) -> (filled: bool)
        ensures
            filled == (self.remaining_qty.0 == 0),
    {
        self.remaining_qty.is_zero()
    }

    /// Fill the order by the given quantity.
    pub fn fill(&mut self, qty: Quantity)
        requires
            qty.0 <= old(self).remaining_qty.0,
        ensures
            *final(self) == old(self).filled_by(qty),
            final(self).remaining_qty.0 == old(self).remaining_qty.0 - qty.0,
    {
        self.remaining_qty = self.remaining_qty.saturating_sub(qty);
    }

    /// Get the filled quantity.
    pub fn filled_qty(&self) -> (filled: Quantity)
        requires
            self.wf(),
        ensures
            filled.0 == self.original_qty.0 - self.remaining_qty.0,
    {
        Quantity(self.original_qty.0 - self.remaining_qty.0)
    }

    /// Check if this is a buy order.
    pub fn is_buy(&self) -> (b: bool)
        ensures
            b == (self.side == Side::Buy),
    {
        self.side.is_buy()
    }

    /// Check if this is a sell order.
    pub fn is_sell(&self) -> (b: bool)
        ensures
            b == (self.side == Side::Sell),
    {
        self.side.is_sell()
    }
}

impl Default for Order {
    fn default() -> (order: Self)
        ensures
            order.price == Price(0),
            order.remaining_qty == Quantity(0),
            order.order_id == OrderId(0),
            order.timestamp == 0,
            order.original_qty == Quantity(0),
            order.symbol == SymbolId(u32::MAX),
            order.side == Side::Buy,
            order.order_type == OrderType::Limit,
            order.flags == 0,
            order.padding@ == Seq::new(17, |i: int| 0u8),
    {
        Order {
            price: Price(0),
            remaining_qty: Quantity(0),
            order_id: OrderId(0),
            timestamp: 0,
            original_qty: Quantity(0),
            symbol: SymbolId(u32::MAX),
            side: Side::Buy,
            order_type: OrderType::Limit,
            flags: 0,
            padding: [0u8; 17],
        }
    }
}

} // verus!
