//! The message history of one chat: an ordered list of messages with day
//! dividers and grouping styles, kept up to date from a stream of updates.
pub mod message;
pub mod utils;
pub mod history_item;
pub mod chat_history;
mod lemmas;
pub mod laws;
