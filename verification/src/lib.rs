//! Resolution engine for locating a subtitle file for one episode of a
//! serialized show: it reconciles an episode-metadata catalog (seasons and
//! sequels as separate records) with a content host whose directory naming
//! varies per release group.
//!
//! The crate holds the decision logic: building a globally numbered season
//! timeline from a catalog's sequel chain, locating a (season, episode) pair
//! on that timeline, fuzzy-matching titles against scraped listings, walking
//! a subtitle directory tree, and a time-keyed fetch cache. Network transport
//! and file handling live outside the crate and feed these functions plain
//! values.

pub mod builder;
pub mod cache;
pub mod catalog;
pub mod digits;
pub mod locate;
pub mod matcher;
pub mod parse;
pub mod scrape;
pub mod strings;
pub mod timeline;
pub mod walker;
