//! A verified engine for keeping a local podcast episode catalog in sync
//! with a remote audio archive: slug and excerpt derivation, manifest
//! scraping, paginated catalog merging, and the reconciliation rules that
//! decide when a record is created, updated, or left alone.

pub mod catalog;
pub mod config;
pub mod datetime;
pub mod doc;
pub mod engine;
pub mod episode;
pub mod error;
pub mod feed;
pub mod json;
pub mod manifest;
pub mod metadata;
pub mod publisher;
pub mod slug;
pub mod store;
pub mod text;
pub mod utils;
