//! The feed reader: fetched feeds turned into news items.
pub mod feed;
pub mod parser;
