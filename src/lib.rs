//! A single-instrument limit order book with price-time priority matching.
pub mod types;
pub mod order;
pub mod heap;
pub mod trade;
pub mod book_side;
pub mod orderbook;

pub use orderbook::OrderBook;
