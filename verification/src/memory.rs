//! What the bot remembers about its chat.
pub mod scope;
pub mod store;
pub mod consolidation;
pub mod extraction;
pub mod legacy;
pub mod prompt;
pub mod tools;
