//! Core of a single-symbol limit order book with price-time priority.
//!
//! - `fixed`: integer prices and quantities.
//! - `order`: the order record.
//! - `pool`: fixed-capacity storage for resting orders, addressed by handle.
//! - `level`: FIFO queue of handles at one price.
//! - `book`: two sides of price levels with a cached best price.
//! - `engine`: submission and cancellation.
//! - `model`, `soundness`, `quantities`, `laws`: what the engine does as a
//!   state machine over mathematical values, and what is proved of it.
//! - `ring`: single-producer single-consumer ring buffer.
//! - `messages`, `parser`, `framing`: the fixed-size binary messages that
//!   carry orders in and reports out, and the buffers of a connection.
//! - `generator`: synthetic orders for replay runs.

pub mod fixed;
pub mod order;
pub mod pool;
pub mod level;
pub mod book;
pub mod fills;
pub mod model;
pub mod soundness;
pub mod quantities;
pub mod laws;
pub mod engine;
pub mod ring;
pub mod messages;
pub mod parser;
pub mod framing;
pub mod generator;

pub use fixed::{Price, Quantity};
pub use order::{Order, OrderId, OrderType, Side, SymbolId};
pub use pool::{OrderHandle, OrderPool};
pub use level::PriceLevel;
pub use book::{BookSide, OrderBook};
pub use fills::Fill;
pub use model::RejectReason;
pub use engine::{MatchingEngine, OrderResult};
pub use messages::{
    CancelOrderMessage, ExecType, ExecutionReport, MessageHeader, MessageType, NewOrderMessage,
    QuoteMessage, TradeMessage,
};
pub use parser::{MessageBuilder, MessageParser, ParseError};
pub use framing::{Command, ReadBuffer, WriteBuffer};
pub use generator::OrderGenerator;
pub use ring::{Consumer, Producer, SpscRing};
