//! The ingestion run as a state machine, and the pre-checks of the embed
//! tool. The machine pins the order of an ingestion: fetch, chunk, reset,
//! upsert every chunk, and only then write the metadata record, whose
//! document count equals the number of chunks upserted.

use vstd::prelude::*;
use crate::error::BackendError;
use crate::features::{features_equal, same_features};
use crate::store::EmbeddingMetadata;

verus! {

/// Where an ingestion run stands.
#[derive(Debug, PartialEq, Eq, Clone, Copy, Structural)]
pub enum IngestStep {
    Fetching,
    Chunking,
    Resetting,
    Embedding,
    WritingMetadata,
    Done,
    Failed,
}

/// One ingestion run: its step, how many chunks it has, and how many it
/// has upserted.
pub struct IngestRun {
    step: IngestStep,
    chunk_total: usize,
    upserted: usize,
}

impl IngestRun {
    /// The current step.
    pub closed spec fn step(&self) -> IngestStep {
        self.step
    }

    /// How many chunks the run holds.
    pub closed spec fn chunk_total(&self) -> usize {
        self.chunk_total
    }

    /// How many chunks were upserted.
    pub closed spec fn upserted(&self) -> usize {
        self.upserted
    }

    /// The run's bookkeeping is consistent: never more upserts than
    /// chunks, and none of them before the embedding step; once the
    /// metadata is being written, or the run is done, every chunk has been
    /// upserted.
    pub open spec fn wf(&self) -> bool {
        &&& self.upserted() <= self.chunk_total()
        &&& (self.step() == IngestStep::Fetching || self.step() == IngestStep::Chunking)
            ==> self.upserted() == 0 && self.chunk_total() == 0
        &&& self.step() == IngestStep::Resetting ==> self.upserted() == 0
        &&& (self.step() == IngestStep::WritingMetadata || self.step() == IngestStep::Done)
            ==> self.upserted() == self.chunk_total()
    }

    /// Reads the current step.
    pub fn current_step(&self) -> (r: IngestStep)
        ensures
            r == self.step(),
    {
        self.step
    }

    /// Reads how many chunks the run holds.
    pub fn chunk_count(&self) -> (r: usize)
        ensures
            r == self.chunk_total(),
    {
        self.chunk_total
    }

    /// Reads how many chunks were upserted.
    pub fn upserted_count(&self) -> (r: usize)
        ensures
            r == self.upserted(),
    {
        self.upserted
    }

    /// A fresh run, about to fetch.
    pub fn start() -> (r: Self)
        ensures
            r.wf(),
            r.step() == IngestStep::Fetching,
            r.upserted() == 0,
    {
        IngestRun { step: IngestStep::Fetching, chunk_total: 0, upserted: 0 }
    }

    /// Records the outcome of the fetch.
    pub fn fetched(&mut self, ok: bool)
        requires
            old(self).wf(),
            old(self).step() == IngestStep::Fetching,
        ensures
            final(self).wf(),
            final(self).step() == (if ok {
                IngestStep::Chunking
            } else {
                IngestStep::Failed
            }),
            final(self).chunk_total() == old(self).chunk_total(),
            final(self).upserted() == old(self).upserted(),
    {
        self.step = if ok {
            IngestStep::Chunking
        } else {
            IngestStep::Failed
        };
    }

    /// Records how many chunks the walk produced.
    pub fn chunked(&mut self, n: usize)
        requires
            old(self).wf(),
            old(self).step() == IngestStep::Chunking,
        ensures
            final(self).wf(),
            final(self).step() == IngestStep::Resetting,
            final(self).chunk_total() == n,
            final(self).upserted() == 0,
    {
        self.chunk_total = n;
        self.step = IngestStep::Resetting;
    }

    /// Records the outcome of the collection reset.
    pub fn reset_done(&mut self, ok: bool)
        requires
            old(self).wf(),
            old(self).step() == IngestStep::Resetting,
        ensures
            final(self).wf(),
            final(self).step() == (if ok {
                IngestStep::Embedding
            } else {
                IngestStep::Failed
            }),
            final(self).chunk_total() == old(self).chunk_total(),
            final(self).upserted() == 0,
    {
        self.step = if ok {
            IngestStep::Embedding
        } else {
            IngestStep::Failed
        };
    }

    /// Records one successful upsert.
    pub fn upserted_one(&mut self)
        requires
            old(self).wf(),
            old(self).step() == IngestStep::Embedding,
            old(self).upserted() < old(self).chunk_total(),
        ensures
            final(self).wf(),
            final(self).step() == IngestStep::Embedding,
            final(self).chunk_total() == old(self).chunk_total(),
            final(self).upserted() == old(self).upserted() + 1,
    {
        self.upserted = self.upserted + 1;
    }

    /// Records a failed embedding or upsert; nothing is retried.
    pub fn embed_failed(&mut self)
        requires
            old(self).wf(),
            old(self).step() == IngestStep::Embedding,
        ensures
            final(self).wf(),
            final(self).step() == IngestStep::Failed,
    {
        self.step = IngestStep::Failed;
    }

    /// Moves to writing the metadata: only allowed once every chunk has
    /// been upserted.
    pub fn finish_embedding(&mut self)
        requires
            old(self).wf(),
            old(self).step() == IngestStep::Embedding,
            old(self).upserted() == old(self).chunk_total(),
        ensures
            final(self).wf(),
            final(self).step() == IngestStep::WritingMetadata,
            final(self).chunk_total() == old(self).chunk_total(),
            final(self).upserted() == old(self).upserted(),
    {
        self.step = IngestStep::WritingMetadata;
    }

    /// The metadata record of this run: its document count equals the
    /// number of chunks upserted.
    pub fn metadata_record(
        &self,
        crate_name: String,
        version: String,
        features: Vec<String>,
        embedded_at: String,
        embedding_model: String,
    ) -> (r: EmbeddingMetadata)
        requires
            self.wf(),
            self.step() == IngestStep::WritingMetadata,
        ensures
            r.doc_count == self.upserted(),
            r.doc_count == self.chunk_total(),
            r.crate_name == crate_name,
            r.version == version,
            r.features == features,
            r.embedded_at == embedded_at,
            r.embedding_model == embedding_model,
    {
        EmbeddingMetadata {
            crate_name,
            version,
            features,
            embedded_at,
            embedding_model,
            doc_count: self.upserted,
        }
    }

    /// Records the outcome of the metadata write.
    pub fn wrote_metadata(&mut self, ok: bool)
        requires
            old(self).wf(),
            old(self).step() == IngestStep::WritingMetadata,
        ensures
            final(self).wf(),
            final(self).step() == (if ok {
                IngestStep::Done
            } else {
                IngestStep::Failed
            }),
            final(self).upserted() == old(self).upserted(),
            final(self).chunk_total() == old(self).chunk_total(),
    {
        self.step = if ok {
            IngestStep::Done
        } else {
            IngestStep::Failed
        };
    }
}

/// Law: a run that reached its end, or is writing its metadata, has
/// upserted exactly its chunk count — so the document count the metadata
/// records equals the number of points upserted.
pub proof fn lemma_doc_count_matches_upserts(run: IngestRun)
    requires
        run.wf(),
        run.step() == IngestStep::Done || run.step() == IngestStep::WritingMetadata,
    ensures
        run.upserted() == run.chunk_total(),
{
}

/// The decision of the embed tool before spawning an ingestion.
#[derive(Debug, PartialEq, Eq, Clone, Copy, Structural)]
pub enum EmbedDecision {
    /// The target is already embedded as requested; succeed idempotently.
    AlreadyEmbedded,
    /// Start a background ingestion.
    Start,
}

/// The embed pre-check of a repository target: existence alone makes the
/// call idempotent.
pub fn repo_embed_precheck(collection_exists: bool) -> (r: EmbedDecision)
    ensures
        r == (if collection_exists {
            EmbedDecision::AlreadyEmbedded
        } else {
            EmbedDecision::Start
        }),
{
    if collection_exists {
        EmbedDecision::AlreadyEmbedded
    } else {
        EmbedDecision::Start
    }
}

/// The features recorded for an existing collection: those of its
/// metadata, or none at all where no metadata was written.
pub open spec fn recorded_features(meta: Option<Vec<String>>) -> Seq<String> {
    match meta {
        Some(fs) => fs@,
        None => Seq::empty(),
    }
}

/// The embed pre-check of a package target whose collection exists:
/// matching sorted features make the call idempotent; different ones are a
/// conflict that starts nothing.
pub fn package_embed_precheck(
    collection_exists: bool,
    existing_features: Option<Vec<String>>,
    requested_features: &Vec<String>,
    crate_name: &str,
) -> (r: Result<EmbedDecision, BackendError>)
    ensures
        !collection_exists ==> (r matches Ok(d) && d == EmbedDecision::Start),
        collection_exists && features_equal(
            recorded_features(existing_features),
            requested_features@,
        ) ==> (r matches Ok(d) && d == EmbedDecision::AlreadyEmbedded),
        collection_exists && !features_equal(
            recorded_features(existing_features),
            requested_features@,
        ) ==> (r matches Err(e) && e matches BackendError::Conflict(c) && c@ == crate_name@),
{
    if !collection_exists {
        return Ok(EmbedDecision::Start);
    }
    let existing = match existing_features {
        Some(fs) => fs,
        None => Vec::new(),
    };
    if same_features(&existing, requested_features) {
        Ok(EmbedDecision::AlreadyEmbedded)
    } else {
        Err(BackendError::Conflict(crate_name.to_owned()))
    }
}

} // verus!
