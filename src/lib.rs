//! Timeline synchronisation and asset caching for a client of a
//! social-feed server: raw payloads are resolved into shared domain
//! objects, deduplicated by a reaction fingerprint, kept in reference-counted
//! caches and swept when nothing observes them any more.
pub mod text;
pub mod table;
pub mod image;
pub mod emoji;
pub mod model;
pub mod reactions;
pub mod mfm;
pub mod cache;
pub mod sync;
pub mod timeline;
pub mod stream;
pub mod assets;
