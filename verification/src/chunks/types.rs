//! The chunk data model.

use vstd::prelude::*;

verus! {

/// A bounded text fragment with its kind and 1-based inclusive line range
/// within the originating file.
#[derive(Debug, PartialEq, Eq)]
pub struct Chunk {
    pub kind: ChunkKind,
    pub start_line: usize,
    pub end_line: usize,
    pub content: String,
}

impl Clone for Chunk {
    fn clone(&self) -> (res: Self)
        ensures
            res == *self,
    {
        Chunk {
            kind: self.kind,
            start_line: self.start_line,
            end_line: self.end_line,
            content: self.content.clone(),
        }
    }
}

/// Kind of a chunk.
#[derive(Debug, PartialEq, Eq, Clone, Copy, Structural)]
pub enum ChunkKind {
    Struct,
    Enum,
    Function,
    Impl,
    Comment,
    MarkdownSection,
    Class,
    Interface,
    TypeAlias,
    Const,
}

} // verus!
