//! Verified core of a streaming market-data and account client for a
//! push-based exchange WebSocket protocol.
//!
//! Frames arrive as JSON text multiplexed over one connection.  This crate
//! classifies them, validates their shape, and turns them into typed domain
//! events; book snapshots and top-of-book tickers are folded into a local
//! view of the current market.  Every price, quantity and balance crosses
//! the wire as a decimal string and is held in an exact decimal value type
//! that round-trips its textual form byte for byte.

pub mod chars;
pub mod decimal;
pub mod decode;
pub mod events;
pub mod json;
pub mod local_book;
pub mod messages;
pub mod sig;
