//! A verified order book and price-time priority matching engine.
pub mod demo;
pub mod matching;
pub mod orderbook;
pub mod types;

pub use matching::engine::MatchingEngine;
pub use matching::error::MatchingError;
pub use matching::result::{
    CancelOutcome, CancelResult, ExecutionReport, MatchFill, MatchOutcome, MatchResult, OrderPlacement,
};
pub use orderbook::book::OrderBook;
pub use orderbook::ops::OrderBookError;
pub use orderbook::price_level::PriceLevel;
pub use orderbook::snapshot::{L2BookSummary, L2Level, OrderBookSnapshot, PriceLevelSnapshot};
pub use types::account::{Account, AccountError, Balance};
pub use types::error::{EngineError, EngineResult};
pub use types::ids::{Address, AddressParseError, MarketId, OrderId};
pub use types::market::{FeeConfig, MarketConfig, MarketStatus};
pub use types::order::{Order, OrderSide, OrderStatus, OrderType, TimeInForce};
pub use types::primitives::{Nonce, Price, Quantity, Timestamp, DECIMALS, SCALE};
pub use types::trade::{Fill, FillRole, Trade, TradeId};
