//! The five atomic transitions of the market: each validates its
//! preconditions, performs at most one custody transfer, and commits the
//! new record state — or rejects with a named error and changes nothing.

pub mod borrow;
pub mod cancel_bid;
pub mod initialize_market;
pub mod place_bid;
pub mod repay;

pub use borrow::{borrow, Borrow};
pub use cancel_bid::{cancel_bid, CancelBid};
pub use initialize_market::{initialize_market, InitializeMarket};
pub use place_bid::{place_bid, PlaceBid};
pub use repay::{repay, Repay};
