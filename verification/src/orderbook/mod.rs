//! The order book: price levels, the book itself, its operations and snapshots.
pub mod book;
pub mod ops;
pub mod price_level;
pub mod snapshot;
