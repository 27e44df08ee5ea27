//! Second pass of a markup pull parser: replays the tokenizer's buffered
//! events, tracks the open list and block-quote scopes, and drops the
//! paragraph markers that belong to tight lists.

pub mod event;
pub mod model;
pub mod passes;

pub use event::{Event, Tag};
pub use passes::Parser;
