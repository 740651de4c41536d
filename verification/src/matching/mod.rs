//! Matching incoming orders against an order book: price-time priority,
//! self-trade prevention and the time-in-force rules.

pub mod engine;
pub mod error;
pub mod matcher;
pub mod result;
