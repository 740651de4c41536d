//! Core value types: identifiers, fixed-point numbers, orders, trades,
//! market configuration and accounts.
pub mod account;
pub mod error;
pub mod hex_codec;
pub mod ids;
pub mod market;
pub mod order;
pub mod primitives;
pub mod text;
pub mod trade;
