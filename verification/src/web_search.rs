//! Web tools for the model: searching, fetching pages, and a cache for both.
pub mod cache;
pub mod client;
pub mod executor;
pub mod tools;
