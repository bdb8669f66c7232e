//! Configuration records.

use vstd::prelude::*;

verus! {

/// The endpoints and credentials the application is configured with.
pub struct AppConfig {
    pub qdrant_url: String,
    pub openai_api_key: String,
}

/// How chunking for embedding is configured.
pub struct EmbedConfig {
    pub chunk_size: usize,
    pub chunk_overlap: usize,
}

impl Default for EmbedConfig {
    /// The default chunking configuration.
    fn default() -> (r: Self)
        ensures
            r.chunk_size == 3000,
            r.chunk_overlap == 200,
    {
        EmbedConfig { chunk_size: 3000, chunk_overlap: 200 }
    }
}

} // verus!
