//! Semantic chunking and indexing of source repositories.
//!
//! The crate turns a repository of Rust, TypeScript and Markdown files into
//! bounded text chunks, derives deterministic collection names for the vector
//! store, and holds the decision logic of the embedding tool server: the
//! operation registry, the ingestion state machine and the query pre-checks.

pub mod backend;
pub mod chunks;
pub mod commands;
pub mod config;
pub mod embedding;
pub mod error;
pub mod features;
pub mod ingest;
pub mod my_types;
pub mod registry;
pub mod store;
pub mod strutil;
pub mod tokens;
pub mod utils;

pub use my_types::{DocItem, FileRange, ItemType};
