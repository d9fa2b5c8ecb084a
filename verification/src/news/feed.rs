//! A news item as it is stored and served.
use vstd::prelude::*;

use crate::channel::Timestamp;

verus! {

/// A news item taken from one entry of a feed.
#[derive(Debug, PartialEq)]
pub struct Feed {
    pub id: String,
    pub title: String,
    pub link: String,
    pub description: Option<String>,
    pub categories: Vec<String>,
    pub content: Option<String>,
    pub author: Vec<String>,
    pub source: Source,
    pub images: Option<String>,
    pub published: Option<Timestamp>,
    pub created_at: Timestamp,
}

/// Where a news item comes from.
#[derive(Debug, PartialEq)]
pub struct Source {
    pub name: String,
    pub url: Vec<String>,
    pub image: Option<String>,
    pub rss: String,
}

impl Feed {
    /// The item's description.
    pub fn description(&self) -> (r: &Option<String>)
        ensures
            *r == self.description,
    {
        &self.description
    }
}

} // verus!
