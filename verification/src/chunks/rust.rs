//! Rust chunker: visits the top-level syntax nodes of a file in source
//! order, attaches adjacent preceding comments and attributes to the item
//! that follows them, collapses standalone comment runs into one chunk, and
//! keeps a processed-line set so that no top-level node is emitted twice.
//!
//! All decisions are made over plain node records ([`RsNode`]); the grammar
//! itself sits behind the trusted parser boundary in [`crate::chunks::syntax`].

use vstd::prelude::*;
use vstd::string::StringExecFns;
use crate::chunks::syntax::RawNode;
use crate::chunks::syntax::parse_rust_raw;
use crate::chunks::types::{Chunk, ChunkKind};
use crate::strutil::{split_lines, streq, to_chars};
use crate::tokens::{
    MAX_TOKENS,
    token_decoding,
    token_decoding_ok,
    token_encoding,
    token_encoding_ok,
    trim_to_token_limit,
};

verus! {

/// Largest row value kept after conversion, so that a 1-based line number
/// still fits in `usize`.
pub const MAX_ROW: usize = usize::MAX - 1;

/// Grammar kind of a top-level node, as far as the chunker distinguishes.
#[derive(Debug, PartialEq, Eq, Clone, Copy, Structural)]
pub enum RsNodeKind {
    StructItem,
    EnumItem,
    FunctionItem,
    ImplItem,
    LineComment,
    AttributeItem,
    UseDeclaration,
    Other,
}

/// A top-level node record: kind and 0-based inclusive row span.
#[derive(Debug, PartialEq, Eq, Clone, Copy, Structural)]
pub struct RsNode {
    pub kind: RsNodeKind,
    pub start_row: usize,
    pub end_row: usize,
}

/// The node kind that a grammar kind string denotes.
pub open spec fn spec_rs_kind(s: Seq<char>) -> RsNodeKind {
    if s == "struct_item"@ {
        RsNodeKind::StructItem
    } else if s == "enum_item"@ {
        RsNodeKind::EnumItem
    } else if s == "function_item"@ {
        RsNodeKind::FunctionItem
    } else if s == "impl_item"@ {
        RsNodeKind::ImplItem
    } else if s == "line_comment"@ {
        RsNodeKind::LineComment
    } else if s == "attribute_item"@ {
        RsNodeKind::AttributeItem
    } else if s == "use_declaration"@ {
        RsNodeKind::UseDeclaration
    } else {
        RsNodeKind::Other
    }
}

/// A row clipped to `MAX_ROW`.
pub open spec fn spec_row_clamp(r: usize) -> usize {
    if r > MAX_ROW {
        MAX_ROW
    } else {
        r
    }
}

/// The record that a raw parser node converts to.
pub open spec fn spec_rs_node_of(r: RawNode) -> RsNode {
    RsNode {
        kind: spec_rs_kind(r.kind@),
        start_row: spec_row_clamp(r.start_row),
        end_row: spec_row_clamp(r.end_row),
    }
}

fn row_clamp(r: usize) -> (res: usize)
    ensures
        res == spec_row_clamp(r),
{
    if r > MAX_ROW {
        MAX_ROW
    } else {
        r
    }
}

fn rs_kind_of(s: &String) -> (k: RsNodeKind)
    ensures
        k == spec_rs_kind(s@),
{
    if streq(s.as_str(), "struct_item") {
        RsNodeKind::StructItem
    } else if streq(s.as_str(), "enum_item") {
        RsNodeKind::EnumItem
    } else if streq(s.as_str(), "function_item") {
        RsNodeKind::FunctionItem
    } else if streq(s.as_str(), "impl_item") {
        RsNodeKind::ImplItem
    } else if streq(s.as_str(), "line_comment") {
        RsNodeKind::LineComment
    } else if streq(s.as_str(), "attribute_item") {
        RsNodeKind::AttributeItem
    } else if streq(s.as_str(), "use_declaration") {
        RsNodeKind::UseDeclaration
    } else {
        RsNodeKind::Other
    }
}

/// Converts raw parser nodes into plain records, clipping rows to `MAX_ROW`.
pub fn convert_rust_nodes(raw: &Vec<RawNode>) -> (nodes: Vec<RsNode>)
    ensures
        nodes@.len() == raw@.len(),
        forall|k: int| 0 <= k < raw@.len() ==> nodes@[k] == spec_rs_node_of(#[trigger] raw@[k]),
{
    let mut nodes: Vec<RsNode> = Vec::new();
    for i in 0..raw.len()
        invariant
            nodes@.len() == i,
            forall|k: int| 0 <= k < i ==> nodes@[k] == spec_rs_node_of(#[trigger] raw@[k]),
    {
        let n = RsNode {
            kind: rs_kind_of(&raw[i].kind),
            start_row: row_clamp(raw[i].start_row),
            end_row: row_clamp(raw[i].end_row),
        };
        nodes.push(n);
    }
    nodes
}

/// All rows of the records are within `MAX_ROW`.
pub open spec fn rows_clamped(nodes: Seq<RsNode>) -> bool {
    forall|k: int| 0 <= k < nodes.len() ==> (#[trigger] nodes[k]).start_row <= MAX_ROW
        && nodes[k].end_row <= MAX_ROW
}

/// Kinds that become item chunks.
pub open spec fn is_item_kind(k: RsNodeKind) -> bool {
    k == RsNodeKind::StructItem || k == RsNodeKind::EnumItem || k == RsNodeKind::FunctionItem
        || k == RsNodeKind::ImplItem
}

/// The chunk kind of an item node kind.
pub open spec fn item_chunk_kind(k: RsNodeKind) -> ChunkKind {
    if k == RsNodeKind::StructItem {
        ChunkKind::Struct
    } else if k == RsNodeKind::EnumItem {
        ChunkKind::Enum
    } else if k == RsNodeKind::FunctionItem {
        ChunkKind::Function
    } else {
        ChunkKind::Impl
    }
}

/// Kinds that decorate the item after them.
pub open spec fn is_decoration_kind(k: RsNodeKind) -> bool {
    k == RsNodeKind::LineComment || k == RsNodeKind::AttributeItem
}

/// `prev` is a decoration that ends at most one row above the start of
/// `next`.
pub open spec fn adjacent(prev: RsNode, next: RsNode) -> bool {
    is_decoration_kind(prev.kind) && prev.end_row + 1 >= next.start_row
}

fn adjacent_nodes(prev: &RsNode, next: &RsNode) -> (r: bool)
    ensures
        r == adjacent(*prev, *next),
{
    (matches!(prev.kind, RsNodeKind::LineComment | RsNodeKind::AttributeItem)) && (
    next.start_row == 0 || prev.end_row >= next.start_row - 1)
}

/// The start row of the earliest decoration in the contiguous chain that
/// ends at node `j`.
pub open spec fn first_decoration_row(nodes: Seq<RsNode>, j: int) -> int
    decreases j,
{
    if 0 < j < nodes.len() && adjacent(nodes[j - 1], nodes[j]) {
        first_decoration_row(nodes, j - 1)
    } else if 0 <= j < nodes.len() {
        nodes[j].start_row as int
    } else {
        0
    }
}

/// Walks the decoration chain that ends at node `j` back to its earliest
/// member and returns that member's start row.
pub fn find_first_decoration(nodes: &Vec<RsNode>, j: usize) -> (r: usize)
    requires
        j < nodes@.len(),
    ensures
        r as int == first_decoration_row(nodes@, j as int),
        exists|t: int| 0 <= t <= j && r == (#[trigger] nodes@[t]).start_row,
    decreases j,
{
    if j > 0 && adjacent_nodes(&nodes[j - 1], &nodes[j]) {
        find_first_decoration(nodes, j - 1)
    } else {
        nodes[j].start_row
    }
}

/// The chunk start row of the node at `i`: the earliest adjacent preceding
/// decoration, or the node's own start row.
pub open spec fn chunk_start_row(nodes: Seq<RsNode>, i: int) -> int {
    if 0 < i < nodes.len() && adjacent(nodes[i - 1], nodes[i]) {
        first_decoration_row(nodes, i - 1)
    } else if 0 <= i < nodes.len() {
        nodes[i].start_row as int
    } else {
        0
    }
}

fn chunk_start(nodes: &Vec<RsNode>, i: usize) -> (r: usize)
    requires
        i < nodes@.len(),
    ensures
        r as int == chunk_start_row(nodes@, i as int),
        exists|t: int| 0 <= t <= i && r == (#[trigger] nodes@[t]).start_row,
{
    if i > 0 && adjacent_nodes(&nodes[i - 1], &nodes[i]) {
        find_first_decoration(nodes, i - 1)
    } else {
        nodes[i].start_row
    }
}

/// The comment at `j` reaches a recognized item through a contiguous chain
/// of decorations, so it belongs to that item and is no standalone comment.
pub open spec fn comment_before_item(nodes: Seq<RsNode>, j: int) -> bool
    decreases nodes.len() - j,
{
    if 0 <= j && j + 1 < nodes.len() {
        let next = nodes[j + 1];
        if is_item_kind(next.kind) {
            nodes[j].end_row + 1 >= next.start_row
        } else if is_decoration_kind(next.kind) && next.start_row <= nodes[j].end_row + 1 {
            comment_before_item(nodes, j + 1)
        } else {
            false
        }
    } else {
        false
    }
}

/// Checks whether the comment at `j` decorates a following recognized item.
pub fn is_comment_before_item(nodes: &Vec<RsNode>, j: usize) -> (r: bool)
    requires
        j < nodes@.len(),
    ensures
        r == comment_before_item(nodes@, j as int),
    decreases nodes@.len() - j,
{
    if j < nodes.len() - 1 {
        let next = &nodes[j + 1];
        if matches!(next.kind, RsNodeKind::StructItem | RsNodeKind::EnumItem
            | RsNodeKind::FunctionItem | RsNodeKind::ImplItem) {
            next.start_row == 0 || nodes[j].end_row >= next.start_row - 1
        } else if (matches!(next.kind, RsNodeKind::LineComment | RsNodeKind::AttributeItem)) && (
        next.start_row == 0 || next.start_row - 1 <= nodes[j].end_row) {
            is_comment_before_item(nodes, j + 1)
        } else {
            false
        }
    } else {
        false
    }
}

/// The end row of the last comment in the run of consecutive standalone
/// comments that starts at `j`.
pub open spec fn last_comment_row(nodes: Seq<RsNode>, j: int) -> int
    decreases nodes.len() - j,
{
    if 0 <= j && j + 1 < nodes.len() && nodes[j + 1].kind == RsNodeKind::LineComment && nodes[j
        + 1].start_row <= nodes[j].end_row + 1 {
        last_comment_row(nodes, j + 1)
    } else if 0 <= j < nodes.len() {
        nodes[j].end_row as int
    } else {
        0
    }
}

/// Finds the end row of the run of consecutive comments starting at `j`.
pub fn find_last_consecutive_comment(nodes: &Vec<RsNode>, j: usize) -> (r: usize)
    requires
        j < nodes@.len(),
    ensures
        r as int == last_comment_row(nodes@, j as int),
        exists|t: int| j <= t < nodes@.len() && r == (#[trigger] nodes@[t]).end_row,
    decreases nodes@.len() - j,
{
    if j < nodes.len() - 1 && nodes[j + 1].kind == RsNodeKind::LineComment && (nodes[j
        + 1].start_row == 0 || nodes[j + 1].start_row - 1 <= nodes[j].end_row) {
        find_last_consecutive_comment(nodes, j + 1)
    } else {
        nodes[j].end_row
    }
}

/// The set of rows from `a` to `b`, inclusive.
pub open spec fn range_rows(a: int, b: int) -> Set<int> {
    Set::new(|x: int| a <= x <= b)
}

/// The set of rows held in a processed-row vector.
pub open spec fn row_set(v: Seq<usize>) -> Set<int> {
    Set::new(|x: int| exists|k: int| 0 <= k < v.len() && (#[trigger] v[k]) as int == x)
}

/// Pushing one row onto the processed vector inserts exactly that row into
/// its row set.
proof fn lemma_row_set_push(v: Seq<usize>, y: usize)
    ensures
        row_set(v.push(y)) =~= row_set(v).insert(y as int),
{
    assert forall|z: int| row_set(v.push(y)).contains(z) implies row_set(v).insert(
        y as int,
    ).contains(z) by {
        let k = choose|k: int| 0 <= k < v.push(y).len() && (#[trigger] v.push(y)[k]) as int == z;
        if k < v.len() {
            assert(v[k] == v.push(y)[k]);
        } else {
            assert(v.push(y)[k] == y);
        }
    }
    assert forall|z: int| row_set(v).insert(y as int).contains(z) implies row_set(
        v.push(y),
    ).contains(z) by {
        if z == y as int {
            assert(v.push(y)[v.len() as int] == y);
        } else {
            let k = choose|k: int| 0 <= k < v.len() && (#[trigger] v[k]) as int == z;
            assert(v.push(y)[k] == v[k]);
        }
    }
}

/// Adds every row of the inclusive range to the processed set.
pub fn mark_lines_processed(processed: &mut Vec<usize>, start: usize, end: usize)
    requires
        end < usize::MAX,
    ensures
        row_set(final(processed)@) == row_set(old(processed)@).union(range_rows(
            start as int,
            end as int,
        )),
{
    let ghost p0 = processed@;
    if end < start {
        proof {
            assert(row_set(processed@) =~= row_set(p0).union(range_rows(
                start as int,
                end as int,
            )));
        }
        return ;
    }
    assert(row_set(processed@) =~= row_set(p0).union(range_rows(start as int, start as int - 1)));
    for x in start..end + 1
        invariant
            row_set(processed@) == row_set(p0).union(range_rows(start as int, x as int - 1)),
    {
        let ghost pv = processed@;
        processed.push(x);
        proof {
            lemma_row_set_push(pv, x);
            assert(row_set(processed@) =~= row_set(p0).union(range_rows(
                start as int,
                x as int,
            )));
        }
    }
}

/// Checks whether a row is already in the processed set.
pub fn row_processed(processed: &Vec<usize>, row: usize) -> (r: bool)
    ensures
        r == row_set(processed@).contains(row as int),
{
    for i in 0..processed.len()
        invariant
            forall|k: int| 0 <= k < i ==> (#[trigger] processed@[k]) != row,
    {
        if processed[i] == row {
            return true;
        }
    }
    assert(!row_set(processed@).contains(row as int)) by {
        if row_set(processed@).contains(row as int) {
            let k = choose|k: int|
                0 <= k < processed@.len() && (#[trigger] processed@[k]) as int == row as int;
        }
    }
    false
}

/// The joined text of `lines[start ..= end]`, separated by newlines, with
/// the range clipped to the available lines; empty when the range starts
/// outside them.
pub open spec fn join_range(lines: Seq<Seq<char>>, start: int, end: int) -> Seq<char>
    decreases end - start,
{
    if start < 0 || start >= lines.len() || start > end {
        Seq::empty()
    } else {
        let e = if end >= lines.len() {
            lines.len() - 1
        } else {
            end
        };
        if start == e {
            lines[start]
        } else {
            join_range(lines, start, e - 1) + seq!['\n'] + lines[e]
        }
    }
}

/// Joins the 0-based inclusive line range `start ..= end` with newlines.
pub fn extract_lines(lines: &Vec<String>, start: usize, end: usize) -> (r: String)
    ensures
        r@ == join_range(lines.deep_view(), start as int, end as int),
{
    let ghost dv = lines.deep_view();
    if start >= lines.len() || start > end {
        return String::new();
    }
    let last: usize = if end >= lines.len() {
        lines.len() - 1
    } else {
        end
    };
    let mut r: String = lines[start].clone();
    assert(r@ == dv[start as int]);
    for i in (start + 1)..(last + 1)
        invariant
            start < i <= last + 1,
            last < lines@.len(),
            dv == lines.deep_view(),
            r@ == join_range(dv, start as int, i - 1),
    {
        r.append("\n");
        r.append(lines[i].as_str());
        proof {
            reveal_strlit("\n");
            assert("\n"@ =~= seq!['\n']);
            assert(lines@[i as int]@ == dv[i as int]);
            assert(r@ =~= join_range(dv, start as int, i as int));
        }
    }
    assert(join_range(dv, start as int, end as int) == join_range(dv, start as int, last as int));
    r
}

/// What a chunk stores for the raw joined text: the text itself within the
/// token cap, the decoding of its first `MAX_TOKENS` tokens when over it,
/// and the empty string where the tokenizer fails on the text or on the
/// truncated token sequence.
pub open spec fn spec_chunk_content(raw: Seq<char>) -> Seq<char> {
    if token_encoding_ok(raw) && token_encoding(raw).len() <= MAX_TOKENS {
        raw
    } else if token_encoding_ok(raw) && token_decoding_ok(
        token_encoding(raw).take(MAX_TOKENS as int),
    ) {
        token_decoding(token_encoding(raw).take(MAX_TOKENS as int))
    } else {
        Seq::empty()
    }
}

/// Extracts and token-caps the content of the line range `s ..= e`.
pub fn chunk_content(lines: &Vec<String>, s: usize, e: usize) -> (r: String)
    ensures
        r@ == spec_chunk_content(join_range(lines.deep_view(), s as int, e as int)),
{
    let raw = extract_lines(lines, s, e);
    match trim_to_token_limit(raw.as_str()) {
        Some(t) => t,
        None => String::new(),
    }
}

/// The chunk spans (kind, start row, end row) that the chunker emits from
/// node `i` on, given the rows already processed.
pub open spec fn model_from(nodes: Seq<RsNode>, i: int, processed: Set<int>) -> Seq<
    (ChunkKind, int, int),
>
    decreases nodes.len() - i,
{
    if i < 0 || i >= nodes.len() {
        Seq::empty()
    } else {
        let n = nodes[i];
        if n.kind == RsNodeKind::UseDeclaration {
            model_from(nodes, i + 1, processed)
        } else if processed.contains(n.start_row as int) {
            model_from(nodes, i + 1, processed)
        } else if is_item_kind(n.kind) {
            let s = chunk_start_row(nodes, i);
            let e = n.end_row as int;
            seq![(item_chunk_kind(n.kind), s, e)] + model_from(
                nodes,
                i + 1,
                processed.union(range_rows(s, e)),
            )
        } else if n.kind == RsNodeKind::LineComment {
            if comment_before_item(nodes, i) {
                model_from(nodes, i + 1, processed)
            } else {
                let s = chunk_start_row(nodes, i);
                let e = last_comment_row(nodes, i);
                seq![(ChunkKind::Comment, s, e)] + model_from(
                    nodes,
                    i + 1,
                    processed.union(range_rows(s, e)),
                )
            }
        } else {
            model_from(nodes, i + 1, processed)
        }
    }
}

/// The chunk spans of a whole record list.
pub open spec fn rust_chunk_spans(nodes: Seq<RsNode>) -> Seq<(ChunkKind, int, int)> {
    model_from(nodes, 0, Set::empty())
}

/// The (kind, start row, end row) triples of emitted chunks.
pub open spec fn spans_of(out: Seq<Chunk>) -> Seq<(ChunkKind, int, int)> {
    out.map(|k: int, c: Chunk| (c.kind, c.start_line as int - 1, c.end_line as int - 1))
}

/// A chunk's lines are 1-based and its content is the token-capped join of
/// its line range.
pub open spec fn chunk_wf(c: Chunk, lines: Seq<Seq<char>>) -> bool {
    &&& c.start_line >= 1
    &&& c.end_line >= 1
    &&& c.content@ == spec_chunk_content(
        join_range(lines, c.start_line as int - 1, c.end_line as int - 1),
    )
}

/// The emitted chunks follow the chunker model on `nodes` over `lines`.
pub open spec fn chunks_match(nodes: Seq<RsNode>, lines: Seq<Seq<char>>, out: Seq<Chunk>) -> bool {
    &&& spans_of(out) == rust_chunk_spans(nodes)
    &&& forall|k: int| 0 <= k < out.len() ==> chunk_wf(#[trigger] out[k], lines)
}

/// Emits the chunks of a file from its top-level node records and its lines.
pub fn chunks_from_nodes(nodes: &Vec<RsNode>, lines: &Vec<String>) -> (out: Vec<Chunk>)
    requires
        rows_clamped(nodes@),
    ensures
        chunks_match(nodes@, lines.deep_view(), out@),
{
    let ghost dv = lines.deep_view();
    let mut out: Vec<Chunk> = Vec::new();
    let mut processed: Vec<usize> = Vec::new();
    proof {
        assert(row_set(processed@) =~= Set::<int>::empty());
        assert(spans_of(out@) =~= Seq::<(ChunkKind, int, int)>::empty());
        assert(spans_of(out@) + model_from(nodes@, 0, row_set(processed@)) =~= rust_chunk_spans(
            nodes@,
        ));
    }
    for i in 0..nodes.len()
        invariant
            rows_clamped(nodes@),
            dv == lines.deep_view(),
            rust_chunk_spans(nodes@) == spans_of(out@) + model_from(
                nodes@,
                i as int,
                row_set(processed@),
            ),
            forall|k: int| 0 <= k < out@.len() ==> chunk_wf(#[trigger] out@[k], dv),
    {
        let ghost pset = row_set(processed@);
        let n = nodes[i];
        if matches!(n.kind, RsNodeKind::UseDeclaration) {
            // ignored kind
        } else if row_processed(&processed, n.start_row) {
            // already part of an earlier chunk
        } else if matches!(n.kind, RsNodeKind::StructItem | RsNodeKind::EnumItem
            | RsNodeKind::FunctionItem | RsNodeKind::ImplItem) {
            let s = chunk_start(nodes, i);
            let e = n.end_row;
            let kind = match n.kind {
                RsNodeKind::StructItem => ChunkKind::Struct,
                RsNodeKind::EnumItem => ChunkKind::Enum,
                RsNodeKind::FunctionItem => ChunkKind::Function,
                _ => ChunkKind::Impl,
            };
            assert(kind == item_chunk_kind(n.kind));
            mark_lines_processed(&mut processed, s, e);
            let content = chunk_content(lines, s, e);
            let ghost prev = out@;
            out.push(Chunk { kind, start_line: s + 1, end_line: e + 1, content });
            proof {
                assert(spans_of(out@) =~= spans_of(prev).push((kind, s as int, e as int)));
                assert(spans_of(prev).push((kind, s as int, e as int)) + model_from(
                    nodes@,
                    i + 1,
                    row_set(processed@),
                ) =~= spans_of(prev) + (seq![(kind, s as int, e as int)] + model_from(
                    nodes@,
                    i + 1,
                    row_set(processed@),
                )));
            }
        } else if matches!(n.kind, RsNodeKind::LineComment) {
            if is_comment_before_item(nodes, i) {
                // decorates the following item
            } else {
                let s = chunk_start(nodes, i);
                let e = find_last_consecutive_comment(nodes, i);
                mark_lines_processed(&mut processed, s, e);
                let content = chunk_content(lines, s, e);
                let ghost prev = out@;
                out.push(Chunk {
                    kind: ChunkKind::Comment,
                    start_line: s + 1,
                    end_line: e + 1,
                    content,
                });
                proof {
                    assert(spans_of(out@) =~= spans_of(prev).push(
                        (ChunkKind::Comment, s as int, e as int),
                    ));
                    assert(spans_of(prev).push((ChunkKind::Comment, s as int, e as int))
                        + model_from(nodes@, i + 1, row_set(processed@)) =~= spans_of(prev) + (
                    seq![(ChunkKind::Comment, s as int, e as int)] + model_from(
                        nodes@,
                        i + 1,
                        row_set(processed@),
                    )));
                }
            }
        } else {
            // other kinds produce no chunk
        }
    }
    proof {
        assert(spans_of(out@) + model_from(nodes@, nodes@.len() as int, row_set(processed@))
            =~= spans_of(out@));
    }
    out
}

/// Every node spans ordered rows, and each node starts on or after the
/// row where the node before it ends — what the parser promises of the
/// root's children.
pub open spec fn rows_weakly_ordered(nodes: Seq<RsNode>) -> bool {
    &&& forall|k: int| 0 <= k < nodes.len() ==> (#[trigger] nodes[k]).start_row <= nodes[k].end_row
    &&& forall|k: int|
        0 <= k && k + 1 < nodes.len() ==> (#[trigger] nodes[k]).end_row <= nodes[k + 1].start_row
}

/// The records describe real top-level syntax nodes: every node spans
/// ordered rows, and each node starts strictly below the node before it.
pub open spec fn nodes_well_formed(nodes: Seq<RsNode>) -> bool {
    &&& forall|k: int| 0 <= k < nodes.len() ==> (#[trigger] nodes[k]).start_row <= nodes[k].end_row
    &&& forall|k: int|
        0 <= k && k + 1 < nodes.len() ==> (#[trigger] nodes[k]).end_row < nodes[k + 1].start_row
}

/// Strict row ordering is a special case of the weak one.
proof fn lemma_strict_implies_weak(nodes: Seq<RsNode>)
    requires
        nodes_well_formed(nodes),
    ensures
        rows_weakly_ordered(nodes),
{
}

/// An earlier node ends strictly before a later node starts.
proof fn lemma_rows_ordered(nodes: Seq<RsNode>, a: int, b: int)
    requires
        nodes_well_formed(nodes),
        0 <= a < b < nodes.len(),
    ensures
        nodes[a].end_row < nodes[b].start_row,
    decreases b - a,
{
    if a + 1 < b {
        lemma_rows_ordered(nodes, a + 1, b);
    }
}

/// The decoration chain ending at `j` never reaches back to or before a
/// non-decoration node at `b`.
#[verifier::rlimit(50)]
proof fn lemma_chain_stops(nodes: Seq<RsNode>, j: int, b: int)
    requires
        nodes_well_formed(nodes),
        0 <= b < j < nodes.len(),
        !is_decoration_kind(nodes[b].kind),
    ensures
        first_decoration_row(nodes, j) > nodes[b].end_row,
    decreases j,
{
    if 0 < j && adjacent(nodes[j - 1], nodes[j]) {
        if j - 1 > b {
            lemma_chain_stops(nodes, j - 1, b);
        }
    } else {
        lemma_rows_ordered(nodes, b, j);
    }
}

/// The chunk start of an item at `i` lies strictly after any non-decoration
/// node before `i`.
proof fn lemma_chunk_start_after(nodes: Seq<RsNode>, i: int, b: int)
    requires
        nodes_well_formed(nodes),
        0 <= b < i < nodes.len(),
        !is_decoration_kind(nodes[b].kind),
    ensures
        chunk_start_row(nodes, i) > nodes[b].end_row,
{
    if 0 < i && adjacent(nodes[i - 1], nodes[i]) {
        if i - 1 > b {
            lemma_chain_stops(nodes, i - 1, b);
        }
    } else {
        lemma_rows_ordered(nodes, b, i);
    }
}

/// The earliest decoration of the chain ending at `j` starts no later than
/// node `j` itself.
proof fn lemma_first_decoration_le(nodes: Seq<RsNode>, j: int)
    requires
        rows_weakly_ordered(nodes),
        0 <= j < nodes.len(),
    ensures
        first_decoration_row(nodes, j) <= nodes[j].start_row,
    decreases j,
{
    if 0 < j && adjacent(nodes[j - 1], nodes[j]) {
        lemma_first_decoration_le(nodes, j - 1);
    }
}

/// A chunk starts no later than its node starts.
proof fn lemma_chunk_start_le(nodes: Seq<RsNode>, i: int)
    requires
        rows_weakly_ordered(nodes),
        0 <= i < nodes.len(),
    ensures
        chunk_start_row(nodes, i) <= nodes[i].start_row,
{
    if 0 < i && adjacent(nodes[i - 1], nodes[i]) {
        lemma_first_decoration_le(nodes, i - 1);
    }
}

/// A comment run ends no earlier than its first comment ends.
proof fn lemma_last_comment_ge(nodes: Seq<RsNode>, j: int)
    requires
        rows_weakly_ordered(nodes),
        0 <= j < nodes.len(),
    ensures
        last_comment_row(nodes, j) >= nodes[j].end_row,
    decreases nodes.len() - j,
{
    if j + 1 < nodes.len() && nodes[j + 1].kind == RsNodeKind::LineComment && nodes[j
        + 1].start_row <= nodes[j].end_row + 1 {
        lemma_last_comment_ge(nodes, j + 1);
    }
}

/// Law: every chunk the model emits spans ordered rows.
#[verifier::rlimit(100)]
pub proof fn lemma_model_rows_ordered(nodes: Seq<RsNode>, i: int, processed: Set<int>)
    requires
        rows_weakly_ordered(nodes),
        0 <= i,
    ensures
        forall|k: int|
            0 <= k < model_from(nodes, i, processed).len() ==> (#[trigger] model_from(
                nodes,
                i,
                processed,
            )[k]).1 <= model_from(nodes, i, processed)[k].2,
    decreases nodes.len() - i,
{
    let m0 = model_from(nodes, i, processed);
    if i < nodes.len() {
        let n = nodes[i];
        if n.kind != RsNodeKind::UseDeclaration && !processed.contains(n.start_row as int)
            && (is_item_kind(n.kind) || (n.kind == RsNodeKind::LineComment
            && !comment_before_item(nodes, i))) {
            lemma_chunk_start_le(nodes, i);
            let s = chunk_start_row(nodes, i);
            let e = if is_item_kind(n.kind) {
                n.end_row as int
            } else {
                last_comment_row(nodes, i)
            };
            if n.kind == RsNodeKind::LineComment {
                lemma_last_comment_ge(nodes, i);
            }
            let p2 = processed.union(range_rows(s, e));
            lemma_model_rows_ordered(nodes, i + 1, p2);
            let tail = model_from(nodes, i + 1, p2);
            assert forall|k: int| 0 <= k < m0.len() implies (#[trigger] m0[k]).1 <= m0[k].2 by {
                if k > 0 {
                    assert(m0[k] == tail[k - 1]);
                }
            }
        } else {
            lemma_model_rows_ordered(nodes, i + 1, processed);
            let tail = model_from(nodes, i + 1, processed);
            assert forall|k: int| 0 <= k < m0.len() implies (#[trigger] m0[k]).1 <= m0[k].2 by {
                assert(m0[k] == tail[k]);
            }
        }
    }
}

/// A chunk span of an item kind.
pub open spec fn is_item_span(sp: (ChunkKind, int, int)) -> bool {
    sp.0 != ChunkKind::Comment && sp.0 != ChunkKind::MarkdownSection
}

/// Every item span emitted from `m` on starts strictly after the end of
/// the item node at `i`.
#[verifier::rlimit(100)]
proof fn lemma_item_spans_after(nodes: Seq<RsNode>, i: int, m: int, processed: Set<int>)
    requires
        nodes_well_formed(nodes),
        0 <= i < m,
        is_item_kind(nodes[i].kind),
        i < nodes.len(),
    ensures
        forall|k: int|
            0 <= k < model_from(nodes, m, processed).len() && is_item_span(
                #[trigger] model_from(nodes, m, processed)[k],
            ) ==> model_from(nodes, m, processed)[k].1 > nodes[i].end_row,
    decreases nodes.len() - m,
{
    let m0 = model_from(nodes, m, processed);
    if 0 <= m < nodes.len() {
        let n = nodes[m];
        if n.kind != RsNodeKind::UseDeclaration && !processed.contains(n.start_row as int)
            && (is_item_kind(n.kind) || (n.kind == RsNodeKind::LineComment
            && !comment_before_item(nodes, m))) {
            if is_item_kind(n.kind) {
                lemma_chunk_start_after(nodes, m, i);
            }
            let s = chunk_start_row(nodes, m);
            let e = if is_item_kind(n.kind) {
                n.end_row as int
            } else {
                last_comment_row(nodes, m)
            };
            let p2 = processed.union(range_rows(s, e));
            lemma_item_spans_after(nodes, i, m + 1, p2);
            let tail = model_from(nodes, m + 1, p2);
            assert forall|k: int| 0 <= k < m0.len() && is_item_span(#[trigger] m0[k]) implies
                m0[k].1 > nodes[i].end_row by {
                if k > 0 {
                    assert(m0[k] == tail[k - 1]);
                }
            }
        } else {
            lemma_item_spans_after(nodes, i, m + 1, processed);
            let tail = model_from(nodes, m + 1, processed);
            assert forall|k: int| 0 <= k < m0.len() && is_item_span(#[trigger] m0[k]) implies
                m0[k].1 > nodes[i].end_row by {
                assert(m0[k] == tail[k]);
            }
        }
    }
}

/// Law: within one file, item chunks are pairwise disjoint: an earlier item
/// span ends strictly before a later one starts.
#[verifier::rlimit(100)]
pub proof fn lemma_item_spans_disjoint(nodes: Seq<RsNode>, i: int, processed: Set<int>)
    requires
        nodes_well_formed(nodes),
        0 <= i,
    ensures
        forall|a: int, b: int|
            0 <= a < b < model_from(nodes, i, processed).len() && is_item_span(
                #[trigger] model_from(nodes, i, processed)[a],
            ) && is_item_span(#[trigger] model_from(nodes, i, processed)[b]) ==> model_from(
                nodes,
                i,
                processed,
            )[a].2 < model_from(nodes, i, processed)[b].1,
    decreases nodes.len() - i,
{
    let m0 = model_from(nodes, i, processed);
    if 0 <= i < nodes.len() {
        let n = nodes[i];
        if n.kind != RsNodeKind::UseDeclaration && !processed.contains(n.start_row as int)
            && (is_item_kind(n.kind) || (n.kind == RsNodeKind::LineComment
            && !comment_before_item(nodes, i))) {
            let s = chunk_start_row(nodes, i);
            let e = if is_item_kind(n.kind) {
                n.end_row as int
            } else {
                last_comment_row(nodes, i)
            };
            let p2 = processed.union(range_rows(s, e));
            lemma_item_spans_disjoint(nodes, i + 1, p2);
            if is_item_kind(n.kind) {
                lemma_item_spans_after(nodes, i, i + 1, p2);
            }
            let tail = model_from(nodes, i + 1, p2);
            assert forall|a: int, b: int|
                0 <= a < b < m0.len() && is_item_span(#[trigger] m0[a]) && is_item_span(
                    #[trigger] m0[b],
                ) implies m0[a].2 < m0[b].1 by {
                assert(m0[b] == tail[b - 1]);
                if a > 0 {
                    assert(m0[a] == tail[a - 1]);
                }
            }
        } else {
            lemma_item_spans_disjoint(nodes, i + 1, processed);
            let tail = model_from(nodes, i + 1, processed);
            assert forall|a: int, b: int|
                0 <= a < b < m0.len() && is_item_span(#[trigger] m0[a]) && is_item_span(
                    #[trigger] m0[b],
                ) implies m0[a].2 < m0[b].1 by {
                assert(m0[a] == tail[a]);
                assert(m0[b] == tail[b]);
            }
        }
    }
}

/// Law: for every chunk of a well-formed file, the start line is at most
/// the end line.
pub proof fn lemma_chunk_lines_ordered(nodes: Seq<RsNode>, lines: Seq<Seq<char>>, out: Seq<Chunk>)
    requires
        rows_weakly_ordered(nodes),
        chunks_match(nodes, lines, out),
    ensures
        forall|k: int|
            0 <= k < out.len() ==> (#[trigger] out[k]).start_line <= out[k].end_line,
{
    lemma_model_rows_ordered(nodes, 0, Set::empty());
    assert forall|k: int| 0 <= k < out.len() implies (#[trigger] out[k]).start_line
        <= out[k].end_line by {
        assert(spans_of(out)[k] == (out[k].kind, out[k].start_line as int - 1, out[k].end_line
            as int - 1));
    }
}

/// Law: within one file, no line lies in two chunks whose kinds are both
/// item kinds.
pub proof fn lemma_item_chunks_disjoint(nodes: Seq<RsNode>, lines: Seq<Seq<char>>, out: Seq<Chunk>)
    requires
        nodes_well_formed(nodes),
        chunks_match(nodes, lines, out),
    ensures
        forall|a: int, b: int|
            0 <= a < out.len() && 0 <= b < out.len() && a != b && (#[trigger] out[a]).kind
                != ChunkKind::Comment && out[a].kind != ChunkKind::MarkdownSection && (
            #[trigger] out[b]).kind != ChunkKind::Comment && out[b].kind
                != ChunkKind::MarkdownSection ==> out[a].end_line < out[b].start_line
                || out[b].end_line < out[a].start_line,
{
    lemma_item_spans_disjoint(nodes, 0, Set::empty());
    assert forall|a: int, b: int|
        0 <= a < out.len() && 0 <= b < out.len() && a != b && (#[trigger] out[a]).kind
            != ChunkKind::Comment && out[a].kind != ChunkKind::MarkdownSection && (
        #[trigger] out[b]).kind != ChunkKind::Comment && out[b].kind != ChunkKind::MarkdownSection
        implies out[a].end_line < out[b].start_line || out[b].end_line
        < out[a].start_line by {
        assert(spans_of(out)[a] == (out[a].kind, out[a].start_line as int - 1, out[a].end_line
            as int - 1));
        assert(spans_of(out)[b] == (out[b].kind, out[b].start_line as int - 1, out[b].end_line
            as int - 1));
    }
}

/// Law: an empty file gives an empty chunk list.
pub proof fn lemma_empty_file_no_chunks(nodes: Seq<RsNode>, lines: Seq<Seq<char>>, out: Seq<Chunk>)
    requires
        nodes.len() == 0,
        chunks_match(nodes, lines, out),
    ensures
        out.len() == 0,
{
    assert(spans_of(out).len() == out.len());
}

/// Law: a file holding only comments gives only Comment chunks.
#[verifier::rlimit(100)]
pub proof fn lemma_only_comments(nodes: Seq<RsNode>, i: int, processed: Set<int>)
    requires
        forall|k: int| 0 <= k < nodes.len() ==> (#[trigger] nodes[k]).kind
            == RsNodeKind::LineComment,
        0 <= i,
    ensures
        forall|k: int|
            0 <= k < model_from(nodes, i, processed).len() ==> (#[trigger] model_from(
                nodes,
                i,
                processed,
            )[k]).0 == ChunkKind::Comment,
    decreases nodes.len() - i,
{
    let m0 = model_from(nodes, i, processed);
    if i < nodes.len() {
        let n = nodes[i];
        if !processed.contains(n.start_row as int) && !comment_before_item(nodes, i) {
            let s = chunk_start_row(nodes, i);
            let e = last_comment_row(nodes, i);
            let p2 = processed.union(range_rows(s, e));
            lemma_only_comments(nodes, i + 1, p2);
            let tail = model_from(nodes, i + 1, p2);
            assert forall|k: int| 0 <= k < m0.len() implies (#[trigger] m0[k]).0
                == ChunkKind::Comment by {
                if k > 0 {
                    assert(m0[k] == tail[k - 1]);
                }
            }
        } else {
            lemma_only_comments(nodes, i + 1, processed);
            let tail = model_from(nodes, i + 1, processed);
            assert forall|k: int| 0 <= k < m0.len() implies (#[trigger] m0[k]).0
                == ChunkKind::Comment by {
                assert(m0[k] == tail[k]);
            }
        }
    }
}

/// Whether a comment decorates a following item propagates one step along
/// an adjacent decoration.
#[verifier::rlimit(100)]
proof fn lemma_before_item_step(nodes: Seq<RsNode>, j: int)
    requires
        0 <= j,
        j + 1 < nodes.len(),
        is_decoration_kind(nodes[j + 1].kind),
        nodes[j + 1].start_row <= nodes[j].end_row + 1,
    ensures
        comment_before_item(nodes, j) == comment_before_item(nodes, j + 1),
{
    assert(!is_item_kind(nodes[j + 1].kind));
}

/// A standalone comment's run ends before any decorating comment after it.
#[verifier::rlimit(100)]
proof fn lemma_run_stops_before(nodes: Seq<RsNode>, j: int, i: int)
    requires
        nodes_well_formed(nodes),
        0 <= j < i < nodes.len(),
        !comment_before_item(nodes, j),
        comment_before_item(nodes, i),
    ensures
        last_comment_row(nodes, j) < nodes[i].start_row,
    decreases i - j,
{
    if j + 1 < nodes.len() && nodes[j + 1].kind == RsNodeKind::LineComment && nodes[j
        + 1].start_row <= nodes[j].end_row + 1 {
        lemma_before_item_step(nodes, j);
        lemma_run_stops_before(nodes, j + 1, i);
    } else {
        lemma_rows_ordered(nodes, j, i);
    }
}

/// The decoration chain of a chunk that decorates nothing never reaches
/// back to or across a comment that decorates a following item.
#[verifier::rlimit(100)]
proof fn lemma_chain_above_decorating(nodes: Seq<RsNode>, c: int, i: int)
    requires
        nodes_well_formed(nodes),
        0 <= i < c < nodes.len(),
        is_decoration_kind(nodes[c].kind),
        !comment_before_item(nodes, c),
        comment_before_item(nodes, i),
    ensures
        first_decoration_row(nodes, c) > nodes[i].end_row,
    decreases c,
{
    if 0 < c && adjacent(nodes[c - 1], nodes[c]) {
        lemma_before_item_step(nodes, c - 1);
        if c - 1 == i {
            // the chain would make the decorating comment standalone
            assert(false);
        } else {
            lemma_chain_above_decorating(nodes, c - 1, i);
        }
    } else {
        lemma_rows_ordered(nodes, i, c);
    }
}

/// A standalone comment chunk after a decorating comment starts strictly
/// below it.
#[verifier::rlimit(100)]
proof fn lemma_comment_chunk_after(nodes: Seq<RsNode>, j: int, i: int)
    requires
        nodes_well_formed(nodes),
        0 <= i < j < nodes.len(),
        nodes[j].kind == RsNodeKind::LineComment,
        !comment_before_item(nodes, j),
        comment_before_item(nodes, i),
    ensures
        chunk_start_row(nodes, j) > nodes[i].end_row,
{
    if adjacent(nodes[j - 1], nodes[j]) {
        lemma_before_item_step(nodes, j - 1);
        if j - 1 == i {
            assert(false);
        } else {
            lemma_chain_above_decorating(nodes, j - 1, i);
        }
    } else {
        lemma_rows_ordered(nodes, i, j);
    }
}

/// Law: a comment that decorates a following item is never part of a
/// standalone Comment chunk: no Comment span of the model covers its row.
#[verifier::rlimit(100)]
pub proof fn lemma_decorating_comment_not_standalone(
    nodes: Seq<RsNode>,
    i: int,
    m: int,
    processed: Set<int>,
)
    requires
        nodes_well_formed(nodes),
        0 <= i < nodes.len(),
        nodes[i].kind == RsNodeKind::LineComment,
        comment_before_item(nodes, i),
        0 <= m,
    ensures
        forall|k: int|
            0 <= k < model_from(nodes, m, processed).len() && (#[trigger] model_from(
                nodes,
                m,
                processed,
            )[k]).0 == ChunkKind::Comment ==> !(model_from(nodes, m, processed)[k].1
                <= nodes[i].start_row <= model_from(nodes, m, processed)[k].2),
    decreases nodes.len() - m,
{
    let m0 = model_from(nodes, m, processed);
    if 0 <= m < nodes.len() {
        let n = nodes[m];
        if n.kind != RsNodeKind::UseDeclaration && !processed.contains(n.start_row as int)
            && is_item_kind(n.kind) {
            let s = chunk_start_row(nodes, m);
            let e = n.end_row as int;
            let p2 = processed.union(range_rows(s, e));
            lemma_decorating_comment_not_standalone(nodes, i, m + 1, p2);
            let tail = model_from(nodes, m + 1, p2);
            assert forall|k: int|
                0 <= k < m0.len() && (#[trigger] m0[k]).0 == ChunkKind::Comment implies !(
            m0[k].1 <= nodes[i].start_row <= m0[k].2) by {
                if k > 0 {
                    assert(m0[k] == tail[k - 1]);
                }
            }
        } else if n.kind != RsNodeKind::UseDeclaration && !processed.contains(n.start_row as int)
            && n.kind == RsNodeKind::LineComment && !comment_before_item(nodes, m) {
            let s = chunk_start_row(nodes, m);
            let e = last_comment_row(nodes, m);
            if m < i {
                lemma_run_stops_before(nodes, m, i);
            } else {
                // m == i is impossible: the two comments differ on decorating
                lemma_comment_chunk_after(nodes, m, i);
                assert(nodes[i].start_row <= nodes[i].end_row);
            }
            let p2 = processed.union(range_rows(s, e));
            lemma_decorating_comment_not_standalone(nodes, i, m + 1, p2);
            let tail = model_from(nodes, m + 1, p2);
            assert forall|k: int|
                0 <= k < m0.len() && (#[trigger] m0[k]).0 == ChunkKind::Comment implies !(
            m0[k].1 <= nodes[i].start_row <= m0[k].2) by {
                if k > 0 {
                    assert(m0[k] == tail[k - 1]);
                }
            }
        } else {
            lemma_decorating_comment_not_standalone(nodes, i, m + 1, processed);
            let tail = model_from(nodes, m + 1, processed);
            assert forall|k: int|
                0 <= k < m0.len() && (#[trigger] m0[k]).0 == ChunkKind::Comment implies !(
            m0[k].1 <= nodes[i].start_row <= m0[k].2) by {
                assert(m0[k] == tail[k]);
            }
        }
    }
}

/// Law (comment policy, one step): standing on an unprocessed comment, the
/// chunker emits nothing when the comment decorates a following item, and
/// exactly one Comment chunk covering the comment's run when it does not.
pub proof fn lemma_comment_policy(nodes: Seq<RsNode>, i: int, processed: Set<int>)
    requires
        0 <= i < nodes.len(),
        nodes[i].kind == RsNodeKind::LineComment,
        !processed.contains(nodes[i].start_row as int),
    ensures
        comment_before_item(nodes, i) ==> model_from(nodes, i, processed) == model_from(
            nodes,
            i + 1,
            processed,
        ),
        !comment_before_item(nodes, i) ==> model_from(nodes, i, processed) == seq![
            (ChunkKind::Comment, chunk_start_row(nodes, i), last_comment_row(nodes, i)),
        ] + model_from(
            nodes,
            i + 1,
            processed.union(
                range_rows(chunk_start_row(nodes, i), last_comment_row(nodes, i)),
            ),
        ),
{
}

/// The plain records of the named raw parse: grammar kinds mapped, rows
/// clipped to `MAX_ROW`.
pub open spec fn nodes_of_raw(raw: Seq<(Seq<char>, usize, usize)>) -> Seq<RsNode> {
    raw.map(
        |i: int, t: (Seq<char>, usize, usize)|
            RsNode {
                kind: spec_rs_kind(t.0),
                start_row: spec_row_clamp(t.1),
                end_row: spec_row_clamp(t.2),
            },
    )
}

/// Parses Rust source code into semantic chunks, keeping the documentation
/// context of each item and capping every chunk at the token limit.
///
/// The chunk list follows the chunker model on the records of the parse of
/// `source`, over its lines; those records are weakly row-ordered, so every
/// chunk spans ordered lines.
#[verifier::rlimit(100)]
pub fn extract_rust_chunks(source: &str) -> (out: Vec<Chunk>)
    ensures
        chunks_match(
            nodes_of_raw(crate::chunks::syntax::rust_raw_nodes(source@)),
            crate::strutil::spec_lines(source@),
            out@,
        ),
        rows_weakly_ordered(nodes_of_raw(crate::chunks::syntax::rust_raw_nodes(source@))),
        forall|k: int|
            0 <= k < out@.len() ==> (#[trigger] out@[k]).start_line <= out@[k].end_line,
        source@.len() == 0 ==> out@.len() == 0,
        nodes_well_formed(nodes_of_raw(crate::chunks::syntax::rust_raw_nodes(source@)))
            ==> forall|a: int, b: int|
            0 <= a < out@.len() && 0 <= b < out@.len() && a != b && (#[trigger] out@[a]).kind
                != ChunkKind::Comment && out@[a].kind != ChunkKind::MarkdownSection && (
            #[trigger] out@[b]).kind != ChunkKind::Comment && out@[b].kind
                != ChunkKind::MarkdownSection ==> out@[a].end_line < out@[b].start_line
                || out@[b].end_line < out@[a].start_line,
{
    let raw = parse_rust_raw(source);
    let nodes = convert_rust_nodes(&raw);
    proof {
        let name = crate::chunks::syntax::rust_raw_nodes(source@);
        let tuples = raw@.map(|i: int, n: RawNode| (n.kind@, n.start_row, n.end_row));
        assert(tuples == name);
        assert forall|k: int| 0 <= k < nodes@.len() implies nodes@[k] == nodes_of_raw(
            name,
        )[k] by {
            assert(nodes@[k] == spec_rs_node_of(raw@[k]));
            assert(tuples[k] == (raw@[k].kind@, raw@[k].start_row, raw@[k].end_row));
        }
        assert(nodes@ =~= nodes_of_raw(name));
        assert forall|k: int| 0 <= k < nodes@.len() implies (#[trigger] nodes@[k]).start_row
            <= MAX_ROW && nodes@[k].end_row <= MAX_ROW by {
            assert(nodes@[k] == spec_rs_node_of(raw@[k]));
        }
        assert forall|k: int| 0 <= k < nodes@.len() implies (#[trigger] nodes@[k]).start_row
            <= nodes@[k].end_row by {
            assert(nodes@[k] == spec_rs_node_of(raw@[k]));
            assert(raw@[k].start_row <= raw@[k].end_row);
        }
        assert forall|k: int| 0 <= k && k + 1 < nodes@.len() implies (
        #[trigger] nodes@[k]).end_row <= nodes@[k + 1].start_row by {
            assert(nodes@[k] == spec_rs_node_of(raw@[k]));
            assert(nodes@[k + 1] == spec_rs_node_of(raw@[k + 1]));
            assert(raw@[k].end_row <= raw@[k + 1].start_row);
        }
    }
    let chars = to_chars(source);
    let lines = split_lines(&chars);
    let out = chunks_from_nodes(&nodes, &lines);
    proof {
        lemma_model_rows_ordered(nodes@, 0, Set::empty());
        assert forall|k: int| 0 <= k < out@.len() implies (#[trigger] out@[k]).start_line
            <= out@[k].end_line by {
            assert(spans_of(out@)[k] == (out@[k].kind, out@[k].start_line as int - 1,
            out@[k].end_line as int - 1));
        }
        if source@.len() == 0 {
            assert(spans_of(out@).len() == out@.len());
        }
        if nodes_well_formed(nodes@) {
            lemma_item_chunks_disjoint(nodes@, lines.deep_view(), out@);
        }
    }
    out
}

} // verus!
