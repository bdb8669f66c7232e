//! Embedding-client decisions: the partition of chunk texts into bounded
//! batches whose concatenation is exactly the input, in order.

use vstd::prelude::*;
use crate::chunks::types::Chunk;

verus! {

/// At most this many texts go into one embedding batch.
pub const BATCH_SIZE: usize = 50;

/// Up to this many batches are in flight at once.
pub const CONCURRENT_BATCHES: usize = 5;

/// The concatenation of the batches.
pub open spec fn concat_batches(bs: Seq<Seq<String>>) -> Seq<String>
    decreases bs.len(),
{
    if bs.len() == 0 {
        Seq::empty()
    } else {
        concat_batches(bs.drop_last()) + bs.last()
    }
}

/// Every batch is non-empty and within the batch size.
pub open spec fn batches_bounded(bs: Seq<Seq<String>>) -> bool {
    forall|k: int| 0 <= k < bs.len() ==> 0 < (#[trigger] bs[k]).len() <= BATCH_SIZE
}

/// Partitions the texts into batches of at most `BATCH_SIZE`, in order:
/// the batches concatenate back to the input, and each is non-empty.
pub fn make_batches(texts: Vec<String>) -> (r: Vec<Vec<String>>)
    ensures
        concat_batches(r@.map(|i: int, b: Vec<String>| b@)) == texts@,
        batches_bounded(r@.map(|i: int, b: Vec<String>| b@)),
{
    let mut r: Vec<Vec<String>> = Vec::new();
    let mut cur: Vec<String> = Vec::new();
    proof {
        assert(r@.map(|i: int, b: Vec<String>| b@) =~= Seq::<Seq<String>>::empty());
        assert(concat_batches(Seq::<Seq<String>>::empty()) + cur@ =~= texts@.take(0));
    }
    for i in 0..texts.len()
        invariant
            cur@.len() < BATCH_SIZE,
            concat_batches(r@.map(|i: int, b: Vec<String>| b@)) + cur@ == texts@.take(i as int),
            batches_bounded(r@.map(|i: int, b: Vec<String>| b@)),
    {
        let ghost bs = r@.map(|i: int, b: Vec<String>| b@);
        cur.push(texts[i].clone());
        proof {
            assert(texts@.take(i + 1) =~= texts@.take(i as int).push(texts@[i as int]));
            assert(concat_batches(bs) + cur@ =~= texts@.take(i + 1));
        }
        if cur.len() == BATCH_SIZE {
            let full = cur;
            cur = Vec::new();
            r.push(full);
            proof {
                let bs2 = r@.map(|i: int, b: Vec<String>| b@);
                assert(bs2 =~= bs.push(full@));
                assert(bs2.drop_last() =~= bs);
                assert(bs2.last() == full@);
                assert(concat_batches(bs2) + cur@ =~= texts@.take(i + 1));
            }
        }
    }
    proof {
        assert(texts@.take(texts@.len() as int) =~= texts@);
    }
    if cur.len() > 0 {
        let ghost bs = r@.map(|i: int, b: Vec<String>| b@);
        let ghost tail = cur@;
        r.push(cur);
        proof {
            let bs2 = r@.map(|i: int, b: Vec<String>| b@);
            assert(bs2 =~= bs.push(tail));
            assert(bs2.drop_last() =~= bs);
            assert(bs2.last() == tail);
            assert(concat_batches(bs2) =~= texts@);
        }
    } else {
        proof {
            let bs = r@.map(|i: int, b: Vec<String>| b@);
            assert(concat_batches(bs) =~= concat_batches(bs) + cur@);
        }
    }
    r
}

/// The texts of the chunks, in order.
pub fn chunk_contents(chunks: &Vec<Chunk>) -> (r: Vec<String>)
    ensures
        r@.len() == chunks@.len(),
        forall|k: int| 0 <= k < chunks@.len() ==> (#[trigger] r@[k])@ == chunks@[k].content@,
{
    let mut r: Vec<String> = Vec::new();
    for i in 0..chunks.len()
        invariant
            r@.len() == i,
            forall|k: int| 0 <= k < i ==> (#[trigger] r@[k])@ == chunks@[k].content@,
    {
        r.push(chunks[i].content.clone());
    }
    r
}

/// The chunk lists of all files, flattened in the order handed in.
pub open spec fn concat_chunks(fs: Seq<Seq<Chunk>>) -> Seq<Chunk>
    decreases fs.len(),
{
    if fs.len() == 0 {
        Seq::empty()
    } else {
        concat_chunks(fs.drop_last()) + fs.last()
    }
}

/// Flattens per-file chunk lists into one list, keeping order.
pub fn flatten_file_chunks(files: Vec<Vec<Chunk>>) -> (r: Vec<Chunk>)
    ensures
        r@ == concat_chunks(files@.map(|i: int, f: Vec<Chunk>| f@)),
{
    let mut r: Vec<Chunk> = Vec::new();
    proof {
        assert(files@.take(0).map(|i: int, f: Vec<Chunk>| f@) =~= Seq::<Seq<Chunk>>::empty());
        assert(r@ =~= concat_chunks(files@.take(0).map(|i: int, f: Vec<Chunk>| f@)));
    }
    for i in 0..files.len()
        invariant
            r@ == concat_chunks(files@.take(i as int).map(|i: int, f: Vec<Chunk>| f@)),
    {
        let f = &files[i];
        let ghost before = r@;
        for j in 0..f.len()
            invariant
                r@ == before + f@.take(j as int),
        {
            r.push(f[j].clone());
            assert(r@ =~= before + f@.take(j + 1));
        }
        proof {
            let m0 = files@.take(i as int).map(|i: int, f: Vec<Chunk>| f@);
            let m1 = files@.take(i + 1).map(|i: int, f: Vec<Chunk>| f@);
            assert(m1.drop_last() =~= m0);
            assert(m1.last() == files@[i as int]@);
            assert(f@.take(f@.len() as int) =~= f@);
            assert(r@ =~= concat_chunks(m1));
        }
    }
    proof {
        assert(files@.take(files@.len() as int) =~= files@);
    }
    r
}

} // verus!
