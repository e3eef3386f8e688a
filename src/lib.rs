//! A news ingestion pipeline: per-source adapters turn raw feed items and
//! scraped page metadata into one article shape, and a deduplicating store
//! keeps each article once.
use vstd::prelude::*;

pub mod text;
pub mod media;
pub mod clock;
pub mod article;
pub mod syndication;
pub mod scrape;
pub mod store;
pub mod scheduler;
pub mod daily;

verus! {

} // verus!
