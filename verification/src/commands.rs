//! The command-line surface, as plain data.

use vstd::prelude::*;

verus! {

/// The parsed command line.
pub struct Cli {
    pub command: Commands,
}

/// The commands the command line offers.
pub enum Commands {
    /// Create embeddings for a crate by cloning its repository.
    Embed { crate_name: String, version: String },
    /// Query for similar embeddings.
    Query { crate_name: String, query: String, version: String, limit: u64 },
}

} // verus!
