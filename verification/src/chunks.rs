//! Chunk extraction: a repository file becomes a list of bounded text
//! fragments, each with a kind and a 1-based inclusive line range.

pub mod markdown;
pub mod rust;
pub mod syntax;
pub mod types;
pub mod typescript;

pub use types::{Chunk, ChunkKind};
