//! A central limit order book for a single instrument: resting quotes held
//! by price and arrival time, and the matching of market and limit orders
//! against them.

pub mod accounts;
pub mod book_model;
pub mod depth;
pub mod engine;
pub mod ladder;
pub mod laws;
pub mod level;
pub mod matching;
pub mod newtypes;
pub mod order_book;
pub mod pairs;
pub mod quote;

pub use accounts::{AccountEvent, AccountEventType, AccountOrder, Currency};
pub use book_model::Outcome;
pub use engine::{Order, OrderType, Response};
pub use level::{Cancellation, TOMBSTONE_GC_LIMIT};
pub use matching::TxnOutcome;
pub use newtypes::{Balance, OrderId, Price, UserId, Volume};
pub use order_book::OrderBook;
pub use quote::{Match, MatchType, Quote};
