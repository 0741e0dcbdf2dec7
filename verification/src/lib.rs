//! Order book combiner: keeps the Binance depth book up to date, merges it with
//! the Bitstamp partial book, and summarises the best levels of both exchanges.
//!
//! Prices and quantities are fixed-point integers with eight decimal places
//! (see [`decimal`]), so that levels can be ordered and found again exactly.

pub mod models;
pub mod decimal;
pub mod sorting;
pub mod binance_book;
pub mod summary;
pub mod reconcile;
pub mod stream;
