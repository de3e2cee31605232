//! Assembles a podcast-compatible syndication feed from a collection of
//! locally stored media files.
//!
//! The pipeline is: an ordered metadata store collects one playlist record and
//! an ordered list of entry records; each entry's file gets a deterministic
//! content-addressed identity; file paths are resolved into webroot-bounded,
//! percent-encoded URLs; the resulting channel tree is serialized into
//! namespaced XML text with a fixed field order.

pub mod assemble;
pub mod config;
pub mod date;
pub mod error;
pub mod metadata;
pub mod rss;
pub mod store;
pub mod text;
pub mod url;
pub mod uuid;
pub mod ytmeta;
