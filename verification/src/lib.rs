//! A verified core for a monthly budget tracker backed by a paginated
//! banking API: computing the current calendar month window, following
//! page cursors, extracting transactions from JSON payloads with defined
//! defaults, classifying descriptions into budget categories by keyword,
//! and folding the result into per-category and overall totals.
//!
//! Money is represented exactly as integer cents.

pub mod accounts;
pub mod budget;
pub mod categorize;
pub mod dates;
pub mod digits;
pub mod fetch;
pub mod money;
pub mod payload;
pub mod summary;
pub mod text;
pub mod transactions;
