//! Collection-store decisions: the metadata record, fresh point ids, the
//! pre-check of a query against a missing collection, and the filter that
//! keeps only content-bearing search results, so that the metadata sentinel
//! is never returned.

use vstd::prelude::*;
use crate::error::BackendError;

verus! {

/// Metadata stored with each embedding collection, at the reserved point.
pub struct EmbeddingMetadata {
    pub crate_name: String,
    pub version: String,
    pub features: Vec<String>,
    /// The embedding time, already rendered.
    pub embedded_at: String,
    pub embedding_model: String,
    pub doc_count: usize,
}

/// Hands out point ids for one ingestion run: positive, strictly
/// increasing, so never the reserved metadata id and never reused.
pub struct PointIdGen {
    next_id: u64,
}

impl PointIdGen {
    /// The next id that will be handed out.
    pub closed spec fn next(&self) -> u64 {
        self.next_id
    }

    /// A generator whose first id is 1.
    pub fn new() -> (r: Self)
        ensures
            r.next() == 1,
    {
        PointIdGen { next_id: 1 }
    }

    /// Hands out the next id: positive, and larger than every id handed
    /// out before.
    pub fn fresh(&mut self) -> (r: u64)
        requires
            1 <= old(self).next() < u64::MAX,
        ensures
            r == old(self).next(),
            r >= 1,
            final(self).next() == r + 1,
    {
        let id = self.next_id;
        self.next_id = self.next_id + 1;
        id
    }
}

/// The content-bearing results among the search hits, each with the index
/// it came from, in order.
pub open spec fn content_results(hits: Seq<Option<String>>, i: int) -> Seq<(usize, String)>
    decreases i,
{
    if i <= 0 || i > hits.len() {
        Seq::empty()
    } else {
        content_results(hits, i - 1) + (match hits[i - 1] {
            Some(c) => seq![((i - 1) as usize, c)],
            None => Seq::empty(),
        })
    }
}

/// Keeps the search results whose payload carries content, with their
/// original positions; a result without content — the metadata sentinel —
/// is never returned.
pub fn keep_content_hits(hits: &Vec<Option<String>>) -> (r: Vec<(usize, String)>)
    ensures
        r@ == content_results(hits@, hits@.len() as int),
{
    let mut r: Vec<(usize, String)> = Vec::new();
    for i in 0..hits.len()
        invariant
            r@ == content_results(hits@, i as int),
    {
        match &hits[i] {
            Some(c) => {
                let ghost prev = r@;
                r.push((i, c.clone()));
                assert(r@ =~= prev + seq![(i as usize, hits@[i as int]->0)]);
            },
            None => {
                assert(r@ =~= r@ + Seq::<(usize, String)>::empty());
            },
        }
    }
    r
}

/// Law: search never returns the metadata sentinel. Every kept result
/// points at a hit that carries content, and every content-bearing hit is
/// kept, in order.
pub proof fn lemma_sentinel_never_returned(hits: Seq<Option<String>>, i: int)
    requires
        0 <= i <= hits.len(),
        hits.len() <= usize::MAX,
    ensures
        forall|k: int|
            0 <= k < content_results(hits, i).len() ==> {
                let p = #[trigger] content_results(hits, i)[k];
                &&& p.0 < i
                &&& hits[p.0 as int] == Some(p.1)
            },
        forall|j: int|
            0 <= j < i && (#[trigger] hits[j]) is Some ==> exists|k: int|
                0 <= k < content_results(hits, i).len() && (#[trigger] content_results(
                    hits,
                    i,
                )[k]).0 == j,
    decreases i,
{
    if i > 0 {
        lemma_sentinel_never_returned(hits, i - 1);
        assert forall|j: int|
            0 <= j < i && (#[trigger] hits[j]) is Some implies exists|k: int|
            0 <= k < content_results(hits, i).len() && (#[trigger] content_results(hits, i)[k]).0
                == j by {
            if j < i - 1 {
                let k = choose|k: int|
                    0 <= k < content_results(hits, i - 1).len() && (#[trigger] content_results(
                        hits,
                        i - 1,
                    )[k]).0 == j;
                assert(content_results(hits, i)[k].0 == j);
            } else {
                assert(content_results(hits, i) == content_results(hits, i - 1) + seq![
                    ((i - 1) as usize, hits[i - 1]->0),
                ]);
                let last = content_results(hits, i).len() - 1;
                assert(content_results(hits, i)[last].0 == j);
            }
        }
    }
}

/// Checks that the collection a query addresses exists; the error names
/// the target the way the caller speaks of it.
pub fn query_precheck(collection_exists: bool, crate_name: &str, version: &str) -> (r: Result<
    (),
    BackendError,
>)
    ensures
        (r is Ok) == collection_exists,
        r matches Err(e) ==> e matches BackendError::NoEmbeddedDocs { crate_name: c, version: v }
            && c@ == crate_name@ && v@ == version@,
{
    if collection_exists {
        Ok(())
    } else {
        Err(
            BackendError::NoEmbeddedDocs {
                crate_name: crate_name.to_owned(),
                version: version.to_owned(),
            },
        )
    }
}

/// Passes non-empty result lists through and rejects an empty one with
/// the query it came from.
pub fn check_query_results(results: Vec<(usize, String)>, query: &str) -> (r: Result<
    Vec<(usize, String)>,
    BackendError,
>)
    ensures
        (r is Ok) == (results@.len() > 0),
        r matches Ok(v) ==> v == results,
        r matches Err(e) ==> e matches BackendError::NoQueryResults(q) && q@ == query@,
{
    if results.len() > 0 {
        Ok(results)
    } else {
        Err(BackendError::NoQueryResults(query.to_owned()))
    }
}

} // verus!
