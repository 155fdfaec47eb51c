//! Client-side core of an encrypted, content-addressed backup archive:
//! archive and local paths, exclusion rules, path and content encryption,
//! content fingerprints, and the decisions of the synchronization engine.

pub mod archive_path;
pub mod codec;
pub mod config;
pub mod content;
pub mod crypto;
pub mod local_path;
pub mod metadata;
pub mod policy;
pub mod rules;
pub mod sync;
pub mod upload;
