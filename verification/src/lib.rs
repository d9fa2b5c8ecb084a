//! News from syndication feeds: reading feeds into news items, cleaning their
//! HTML, and the decisions of the news API and its store.
pub mod channel;
pub mod database;
pub mod entities;
pub mod feed;
pub mod markup;
pub mod middleware;
pub mod news;
pub mod parse;
pub mod parser;
pub mod router;
pub mod text;
