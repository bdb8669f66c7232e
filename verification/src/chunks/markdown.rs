//! Markdown chunker: splits a document into heading-aware sections of
//! bounded size and records the 1-based line range of each section, counted
//! cumulatively over the sections in order.

use vstd::prelude::*;
use crate::chunks::types::{Chunk, ChunkKind};
use crate::strutil::count_char;
use crate::strutil::count_char_in;

verus! {

/// The sections that the markdown splitter produces for `s`, in order: a
/// heading-aware split into pieces of 1000 to 1500 characters where
/// possible.
pub uninterp spec fn md_sections(s: Seq<char>) -> Seq<Seq<char>>;

/// The concatenation of the pieces, in order.
pub open spec fn concat_pieces(ps: Seq<Seq<char>>) -> Seq<char>
    decreases ps.len(),
{
    if ps.len() == 0 {
        Seq::empty()
    } else {
        concat_pieces(ps.drop_last()) + ps.last()
    }
}

/// Relies on `text_splitter::MarkdownSplitter::chunks` with a 1000..1500
/// character capacity and trimming off: the sections depend on the text
/// alone; with trimming off they are consecutive substrings that
/// concatenate back to the text, and with character sizing none exceeds
/// the 1500-character capacity maximum.
#[verifier::external_body]
fn split_markdown(source: &str) -> (r: Vec<String>)
    ensures
        r.deep_view() == md_sections(source@),
        concat_pieces(r.deep_view()) == source@,
        forall|k: int| 0 <= k < r.deep_view().len() ==> (#[trigger] r.deep_view()[k]).len()
            <= 1500,
{
    let config = text_splitter::ChunkConfig::new(1000..1500).with_trim(false);
    let splitter = text_splitter::MarkdownSplitter::new(config);
    splitter.chunks(source).map(|c| c.to_string()).collect()
}

/// `a + b`, clipped to `usize::MAX`.
pub open spec fn cadd(a: int, b: int) -> int {
    if a + b > usize::MAX {
        usize::MAX as int
    } else {
        a + b
    }
}

fn cadd_exec(a: usize, b: usize) -> (r: usize)
    ensures
        r as int == cadd(a as int, b as int),
{
    if a <= usize::MAX - b {
        a + b
    } else {
        usize::MAX
    }
}

/// The (start line, end line) pairs of the sections, 1-based: a section
/// starts after all newlines of the sections before it and ends after its
/// own newlines, with `cum` newlines already seen.
pub open spec fn md_spans_acc(pieces: Seq<Seq<char>>, cum: int) -> Seq<(int, int)>
    decreases pieces.len(),
{
    if pieces.len() == 0 {
        Seq::empty()
    } else {
        let c = count_char(pieces[0], '\n') as int;
        let start = cadd(cum, 1);
        let end = cadd(start, c);
        seq![(start, end)] + md_spans_acc(pieces.drop_first(), cadd(cum, c))
    }
}

/// The line spans of the sections of `s`.
pub open spec fn md_spans(s: Seq<char>) -> Seq<(int, int)> {
    md_spans_acc(md_sections(s), 0)
}

/// Splits markdown into sections that respect heading boundaries where
/// possible and stay within the configured size; each chunk records the
/// 1-based line range of its span, counted over the sections in order. The
/// chunk contents concatenate back to the source — nothing is lost or
/// duplicated — and each holds at most 1500 characters.
pub fn extract_markdown_chunks(source: &str) -> (out: Vec<Chunk>)
    ensures
        out@.len() == md_sections(source@).len(),
        forall|k: int| 0 <= k < out@.len() ==> (#[trigger] out@[k]).kind
            == ChunkKind::MarkdownSection,
        forall|k: int| 0 <= k < out@.len() ==> (#[trigger] out@[k]).content@ == md_sections(
            source@,
        )[k],
        forall|k: int| 0 <= k < out@.len() ==> (#[trigger] out@[k]).start_line as int == md_spans(
            source@,
        )[k].0 && out@[k].end_line as int == md_spans(source@)[k].1,
        concat_pieces(out@.map(|k: int, c: Chunk| c.content@)) == source@,
        forall|k: int| 0 <= k < out@.len() ==> (#[trigger] out@[k]).content@.len() <= 1500,
{
    let pieces = split_markdown(source);
    let ghost pv = pieces.deep_view();
    let mut out: Vec<Chunk> = Vec::new();
    let mut cum: usize = 0;
    proof {
        assert(pv.skip(0) =~= pv);
    }
    for i in 0..pieces.len()
        invariant
            pv == pieces.deep_view(),
            pv == md_sections(source@),
            out@.len() == i,
            cum <= usize::MAX,
            forall|k: int| 0 <= k < i ==> (#[trigger] out@[k]).kind == ChunkKind::MarkdownSection,
            forall|k: int| 0 <= k < i ==> (#[trigger] out@[k]).content@ == pv[k],
            md_spans_acc(pv, 0) == out@.map(
                |k: int, c: Chunk| (c.start_line as int, c.end_line as int),
            ) + md_spans_acc(pv.skip(i as int), cum as int),
    {
        let c = count_char_in(pieces[i].as_str(), '\n');
        assert(pieces@[i as int]@ == pv[i as int]);
        let start = cadd_exec(cum, 1);
        let end = cadd_exec(start, c);
        let ghost prev = out@;
        out.push(
            Chunk {
                kind: ChunkKind::MarkdownSection,
                start_line: start,
                end_line: end,
                content: pieces[i].clone(),
            },
        );
        cum = cadd_exec(cum, c);
        proof {
            assert(pv.skip(i as int)[0] == pv[i as int]);
            assert(pv.skip(i as int).drop_first() =~= pv.skip(i + 1));
            assert(out@.map(|k: int, c: Chunk| (c.start_line as int, c.end_line as int))
                =~= prev.map(|k: int, c: Chunk| (c.start_line as int, c.end_line as int)).push(
                (start as int, end as int),
            ));
            assert(prev.map(|k: int, c: Chunk| (c.start_line as int, c.end_line as int)).push(
                (start as int, end as int),
            ) + md_spans_acc(pv.skip(i + 1), cum as int) =~= prev.map(
                |k: int, c: Chunk| (c.start_line as int, c.end_line as int),
            ) + (seq![(start as int, end as int)] + md_spans_acc(pv.skip(i + 1), cum as int)));
        }
    }
    proof {
        assert(pv.skip(pv.len() as int) =~= Seq::<Seq<char>>::empty());
        assert(md_spans_acc(pv, 0) =~= out@.map(
            |k: int, c: Chunk| (c.start_line as int, c.end_line as int),
        ));
        assert forall|k: int| 0 <= k < out@.len() implies (#[trigger] out@[k]).start_line as int
            == md_spans(source@)[k].0 && out@[k].end_line as int == md_spans(source@)[k].1 by {
            assert(out@.map(|k: int, c: Chunk| (c.start_line as int, c.end_line as int))[k] == (
            out@[k].start_line as int,
            out@[k].end_line as int,
            ));
        }
        let cm = out@.map(|k: int, c: Chunk| c.content@);
        assert forall|k: int| 0 <= k < out@.len() implies #[trigger] cm[k] == pv[k] by {
            assert(cm[k] == out@[k].content@);
        }
        assert(cm =~= pv);
    }
    out
}

} // verus!
