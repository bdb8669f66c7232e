//! TypeScript chunker: the analogue of the Rust chunker against the
//! TypeScript grammar. Exported declarations are resolved to their inner
//! declaration, decorators and preceding comments attach to the item that
//! follows them, exported type aliases and `export const` / `export let`
//! declarations are kept, non-exported ones are dropped.

use vstd::prelude::*;
use crate::chunks::syntax::{RawTsChild, RawTsNode, parse_ts_raw};
use crate::chunks::types::{Chunk, ChunkKind};
use crate::chunks::rust::{
    MAX_ROW,
    chunk_content,
    chunk_wf,
    mark_lines_processed,
    range_rows,
    row_processed,
    row_set,
    spans_of,
    spec_row_clamp,
};
use crate::strutil::{spec_starts_with, split_lines, starts_with, streq, to_chars};

verus! {

/// Grammar kind of a top-level TypeScript node, as far as the chunker
/// distinguishes.
#[derive(Debug, PartialEq, Eq, Clone, Copy, Structural)]
pub enum TsKind {
    ClassDecl,
    InterfaceDecl,
    TypeAliasDecl,
    EnumDecl,
    FunctionDecl,
    ArrowFunction,
    MethodDef,
    Lexical,
    Export,
    DecoratedDef,
    Decorator,
    Comment,
    Import,
    ImportAlias,
    Other,
}

/// A top-level node record with everything the chunker reads of the node:
/// kind, rows, text prefixes, and summaries of its children.
#[derive(Debug, PartialEq, Eq, Clone, Copy)]
pub struct TsNode {
    pub kind: TsKind,
    pub start_row: usize,
    pub end_row: usize,
    /// The node text begins with `export const` or `export let`.
    pub export_const_or_let: bool,
    /// The node text begins with `export `.
    pub starts_export: bool,
    /// Some child is a `decorator`.
    pub has_decorator_child: bool,
    /// Some child is a `lexical_declaration`.
    pub has_lexical_child: bool,
    /// The first child that is a class, interface, function, type alias or
    /// enum declaration, as a chunk kind.
    pub first_decl: Option<ChunkKind>,
    /// The last child that is a class, interface or function declaration.
    pub last_cif: Option<ChunkKind>,
    /// The last child that is a class, interface, function, type alias or
    /// enum declaration, or an exported `const`/`let`.
    pub last_dd: Option<ChunkKind>,
    /// The chunk kind of the node's `declaration` field, where that field is
    /// a class, function or interface declaration.
    pub decl_cif: Option<ChunkKind>,
}

/// The node kind that a grammar kind string denotes.
pub open spec fn spec_ts_kind(s: Seq<char>) -> TsKind {
    if s == "class_declaration"@ {
        TsKind::ClassDecl
    } else if s == "interface_declaration"@ {
        TsKind::InterfaceDecl
    } else if s == "type_alias_declaration"@ {
        TsKind::TypeAliasDecl
    } else if s == "enum_declaration"@ {
        TsKind::EnumDecl
    } else if s == "function_declaration"@ {
        TsKind::FunctionDecl
    } else if s == "arrow_function"@ {
        TsKind::ArrowFunction
    } else if s == "method_definition"@ {
        TsKind::MethodDef
    } else if s == "lexical_declaration"@ {
        TsKind::Lexical
    } else if s == "export_statement"@ {
        TsKind::Export
    } else if s == "decorated_definition"@ {
        TsKind::DecoratedDef
    } else if s == "decorator"@ {
        TsKind::Decorator
    } else if s == "comment"@ {
        TsKind::Comment
    } else if s == "import_statement"@ {
        TsKind::Import
    } else if s == "import_alias"@ {
        TsKind::ImportAlias
    } else {
        TsKind::Other
    }
}

fn ts_kind_of(s: &String) -> (k: TsKind)
    ensures
        k == spec_ts_kind(s@),
{
    if streq(s.as_str(), "class_declaration") {
        TsKind::ClassDecl
    } else if streq(s.as_str(), "interface_declaration") {
        TsKind::InterfaceDecl
    } else if streq(s.as_str(), "type_alias_declaration") {
        TsKind::TypeAliasDecl
    } else if streq(s.as_str(), "enum_declaration") {
        TsKind::EnumDecl
    } else if streq(s.as_str(), "function_declaration") {
        TsKind::FunctionDecl
    } else if streq(s.as_str(), "arrow_function") {
        TsKind::ArrowFunction
    } else if streq(s.as_str(), "method_definition") {
        TsKind::MethodDef
    } else if streq(s.as_str(), "lexical_declaration") {
        TsKind::Lexical
    } else if streq(s.as_str(), "export_statement") {
        TsKind::Export
    } else if streq(s.as_str(), "decorated_definition") {
        TsKind::DecoratedDef
    } else if streq(s.as_str(), "decorator") {
        TsKind::Decorator
    } else if streq(s.as_str(), "comment") {
        TsKind::Comment
    } else if streq(s.as_str(), "import_statement") {
        TsKind::Import
    } else if streq(s.as_str(), "import_alias") {
        TsKind::ImportAlias
    } else {
        TsKind::Other
    }
}

/// The chunk kind of a class, interface or function declaration kind string.
pub open spec fn cif_child(s: Seq<char>) -> Option<ChunkKind> {
    if s == "class_declaration"@ {
        Some(ChunkKind::Class)
    } else if s == "interface_declaration"@ {
        Some(ChunkKind::Interface)
    } else if s == "function_declaration"@ {
        Some(ChunkKind::Function)
    } else {
        None
    }
}

fn cif_child_of(s: &String) -> (k: Option<ChunkKind>)
    ensures
        k == cif_child(s@),
{
    if streq(s.as_str(), "class_declaration") {
        Some(ChunkKind::Class)
    } else if streq(s.as_str(), "interface_declaration") {
        Some(ChunkKind::Interface)
    } else if streq(s.as_str(), "function_declaration") {
        Some(ChunkKind::Function)
    } else {
        None
    }
}

/// The chunk kind of a declaration kind string, for the five declaration
/// forms an export statement resolves to.
pub open spec fn decl5_child(s: Seq<char>) -> Option<ChunkKind> {
    if s == "class_declaration"@ {
        Some(ChunkKind::Class)
    } else if s == "interface_declaration"@ {
        Some(ChunkKind::Interface)
    } else if s == "function_declaration"@ {
        Some(ChunkKind::Function)
    } else if s == "type_alias_declaration"@ {
        Some(ChunkKind::TypeAlias)
    } else if s == "enum_declaration"@ {
        Some(ChunkKind::Enum)
    } else {
        None
    }
}

fn decl5_child_of(s: &String) -> (k: Option<ChunkKind>)
    ensures
        k == decl5_child(s@),
{
    if streq(s.as_str(), "class_declaration") {
        Some(ChunkKind::Class)
    } else if streq(s.as_str(), "interface_declaration") {
        Some(ChunkKind::Interface)
    } else if streq(s.as_str(), "function_declaration") {
        Some(ChunkKind::Function)
    } else if streq(s.as_str(), "type_alias_declaration") {
        Some(ChunkKind::TypeAlias)
    } else if streq(s.as_str(), "enum_declaration") {
        Some(ChunkKind::Enum)
    } else {
        None
    }
}

/// Whether a child's text marks an exported `const` or `let` declaration.
/// A child is its (grammar kind, text) pair.
pub open spec fn child_const_export(c: (Seq<char>, Seq<char>)) -> bool {
    spec_starts_with(c.1, "export const"@) || spec_starts_with(c.1, "export let"@)
}

/// The chunk kind a child contributes inside a decorated definition.
pub open spec fn dd_child(c: (Seq<char>, Seq<char>)) -> Option<ChunkKind> {
    if decl5_child(c.0) is Some {
        decl5_child(c.0)
    } else if c.0 == "lexical_declaration"@ && child_const_export(c) {
        Some(ChunkKind::Const)
    } else {
        None
    }
}

/// The first child among the five declaration forms, front to back.
pub open spec fn first_decl_of(cs: Seq<(Seq<char>, Seq<char>)>) -> Option<ChunkKind>
    decreases cs.len(),
{
    if cs.len() == 0 {
        None
    } else if first_decl_of(cs.drop_last()) is Some {
        first_decl_of(cs.drop_last())
    } else {
        decl5_child(cs.last().0)
    }
}

/// The last child among class, interface and function declarations.
pub open spec fn last_cif_of(cs: Seq<(Seq<char>, Seq<char>)>) -> Option<ChunkKind>
    decreases cs.len(),
{
    if cs.len() == 0 {
        None
    } else if cif_child(cs.last().0) is Some {
        cif_child(cs.last().0)
    } else {
        last_cif_of(cs.drop_last())
    }
}

/// The last child that contributes inside a decorated definition.
pub open spec fn last_dd_of(cs: Seq<(Seq<char>, Seq<char>)>) -> Option<ChunkKind>
    decreases cs.len(),
{
    if cs.len() == 0 {
        None
    } else if dd_child(cs.last()) is Some {
        dd_child(cs.last())
    } else {
        last_dd_of(cs.drop_last())
    }
}

/// Some child has the given grammar kind.
pub open spec fn has_child_kind(cs: Seq<(Seq<char>, Seq<char>)>, kind: Seq<char>) -> bool
    decreases cs.len(),
{
    if cs.len() == 0 {
        false
    } else {
        has_child_kind(cs.drop_last(), kind) || cs.last().0 == kind
    }
}

/// The record that a flattened raw parser node converts to.
pub open spec fn ts_node_of_raw(
    t: (Seq<char>, usize, usize, Seq<char>, Option<Seq<char>>, Seq<(Seq<char>, Seq<char>)>),
) -> TsNode {
    TsNode {
        kind: spec_ts_kind(t.0),
        start_row: spec_row_clamp(t.1),
        end_row: spec_row_clamp(t.2),
        export_const_or_let: spec_starts_with(t.3, "export const"@) || spec_starts_with(
            t.3,
            "export let"@,
        ),
        starts_export: spec_starts_with(t.3, "export "@),
        has_decorator_child: has_child_kind(t.5, "decorator"@),
        has_lexical_child: has_child_kind(t.5, "lexical_declaration"@),
        first_decl: first_decl_of(t.5),
        last_cif: last_cif_of(t.5),
        last_dd: last_dd_of(t.5),
        decl_cif: match t.4 {
            Some(s) => cif_child(s),
            None => None,
        },
    }
}

/// The plain records of the named raw parse.
pub open spec fn ts_nodes_of_raw(
    raw: Seq<(Seq<char>, usize, usize, Seq<char>, Option<Seq<char>>, Seq<(Seq<char>, Seq<char>)>)>,
) -> Seq<TsNode> {
    raw.map(
        |i: int,
            t: (Seq<char>, usize, usize, Seq<char>, Option<Seq<char>>, Seq<(Seq<char>, Seq<char>)>)|
            ts_node_of_raw(t),
    )
}

/// The record that a raw parser node converts to.
pub open spec fn spec_ts_node_of(r: RawTsNode) -> TsNode {
    ts_node_of_raw(crate::chunks::syntax::ts_raw_record(r))
}

fn row_clamp(r: usize) -> (res: usize)
    ensures
        res == spec_row_clamp(r),
{
    if r > MAX_ROW {
        MAX_ROW
    } else {
        r
    }
}

fn text_starts_with(text: &String, prefix: &str) -> (r: bool)
    ensures
        r == spec_starts_with(text@, prefix@),
{
    let tc = to_chars(text.as_str());
    let pc = to_chars(prefix);
    starts_with(&tc, &pc)
}

fn convert_ts_node(r: &RawTsNode) -> (n: TsNode)
    ensures
        n == spec_ts_node_of(*r),
{
    let ghost ps = r.children@.map(|j: int, c: RawTsChild| (c.kind@, c.text@));
    let mut has_dec = false;
    let mut has_lex = false;
    let mut first_decl: Option<ChunkKind> = None;
    let mut last_cif: Option<ChunkKind> = None;
    let mut last_dd: Option<ChunkKind> = None;
    for i in 0..r.children.len()
        invariant
            ps == r.children@.map(|j: int, c: RawTsChild| (c.kind@, c.text@)),
            ps.len() == r.children@.len(),
            has_dec == has_child_kind(ps.take(i as int), "decorator"@),
            has_lex == has_child_kind(ps.take(i as int), "lexical_declaration"@),
            first_decl == first_decl_of(ps.take(i as int)),
            last_cif == last_cif_of(ps.take(i as int)),
            last_dd == last_dd_of(ps.take(i as int)),
    {
        let c = &r.children[i];
        proof {
            assert(ps.take(i + 1).drop_last() =~= ps.take(i as int));
            assert(ps[i as int] == (r.children@[i as int].kind@, r.children@[i as int].text@));
            assert(ps.take(i + 1).last() == ps[i as int]);
        }
        if streq(c.kind.as_str(), "decorator") {
            has_dec = true;
        }
        if streq(c.kind.as_str(), "lexical_declaration") {
            has_lex = true;
        }
        let d5 = decl5_child_of(&c.kind);
        if first_decl.is_none() && d5.is_some() {
            first_decl = d5;
        }
        let cif = cif_child_of(&c.kind);
        if cif.is_some() {
            last_cif = cif;
        }
        if d5.is_some() {
            last_dd = d5;
        } else if streq(c.kind.as_str(), "lexical_declaration") && (text_starts_with(
            &c.text,
            "export const",
        ) || text_starts_with(&c.text, "export let")) {
            last_dd = Some(ChunkKind::Const);
        }
    }
    proof {
        assert(ps.take(ps.len() as int) =~= ps);
    }
    let decl_cif = match &r.decl_kind {
        Some(s) => cif_child_of(s),
        None => None,
    };
    TsNode {
        kind: ts_kind_of(&r.kind),
        start_row: row_clamp(r.start_row),
        end_row: row_clamp(r.end_row),
        export_const_or_let: text_starts_with(&r.text, "export const") || text_starts_with(
            &r.text,
            "export let",
        ),
        starts_export: text_starts_with(&r.text, "export "),
        has_decorator_child: has_dec,
        has_lexical_child: has_lex,
        first_decl,
        last_cif,
        last_dd,
        decl_cif,
    }
}

/// Converts raw parser nodes into plain records, clipping rows to `MAX_ROW`.
pub fn convert_ts_nodes(raw: &Vec<RawTsNode>) -> (nodes: Vec<TsNode>)
    ensures
        nodes@.len() == raw@.len(),
        forall|k: int| 0 <= k < raw@.len() ==> nodes@[k] == spec_ts_node_of(#[trigger] raw@[k]),
{
    let mut nodes: Vec<TsNode> = Vec::new();
    for i in 0..raw.len()
        invariant
            nodes@.len() == i,
            forall|k: int| 0 <= k < i ==> nodes@[k] == spec_ts_node_of(#[trigger] raw@[k]),
    {
        let n = convert_ts_node(&raw[i]);
        nodes.push(n);
    }
    nodes
}

/// All rows of the records are within `MAX_ROW`.
pub open spec fn ts_rows_clamped(nodes: Seq<TsNode>) -> bool {
    forall|k: int| 0 <= k < nodes.len() ==> (#[trigger] nodes[k]).start_row <= MAX_ROW
        && nodes[k].end_row <= MAX_ROW
}

/// Kinds that decorate the item after them.
pub open spec fn ts_is_decoration(k: TsKind) -> bool {
    k == TsKind::Comment || k == TsKind::Decorator
}

/// `prev` is a comment or decorator ending at most one row above `next`.
pub open spec fn ts_adjacent(prev: TsNode, next: TsNode) -> bool {
    ts_is_decoration(prev.kind) && prev.end_row + 1 >= next.start_row
}

fn ts_adjacent_nodes(prev: &TsNode, next: &TsNode) -> (r: bool)
    ensures
        r == ts_adjacent(*prev, *next),
{
    (matches!(prev.kind, TsKind::Comment | TsKind::Decorator)) && (next.start_row == 0
        || prev.end_row >= next.start_row - 1)
}

/// The start row of the earliest decoration in the contiguous chain that
/// ends at node `j`.
pub open spec fn ts_first_decoration_row(nodes: Seq<TsNode>, j: int) -> int
    decreases j,
{
    if 0 < j < nodes.len() && ts_adjacent(nodes[j - 1], nodes[j]) {
        ts_first_decoration_row(nodes, j - 1)
    } else if 0 <= j < nodes.len() {
        nodes[j].start_row as int
    } else {
        0
    }
}

/// Walks the decoration chain ending at node `j` back to its earliest
/// member and returns that member's start row.
pub fn find_first_decoration(nodes: &Vec<TsNode>, j: usize) -> (r: usize)
    requires
        j < nodes@.len(),
    ensures
        r as int == ts_first_decoration_row(nodes@, j as int),
        exists|t: int| 0 <= t <= j && r == (#[trigger] nodes@[t]).start_row,
    decreases j,
{
    if j > 0 && ts_adjacent_nodes(&nodes[j - 1], &nodes[j]) {
        find_first_decoration(nodes, j - 1)
    } else {
        nodes[j].start_row
    }
}

/// The chunk start row of the node at `i` on the standard path: the
/// earliest adjacent preceding decoration, or the node's own start row.
pub open spec fn ts_chunk_start_row(nodes: Seq<TsNode>, i: int) -> int {
    if 0 < i < nodes.len() && ts_adjacent(nodes[i - 1], nodes[i]) {
        ts_first_decoration_row(nodes, i - 1)
    } else if 0 <= i < nodes.len() {
        nodes[i].start_row as int
    } else {
        0
    }
}

fn ts_chunk_start(nodes: &Vec<TsNode>, i: usize) -> (r: usize)
    requires
        i < nodes@.len(),
    ensures
        r as int == ts_chunk_start_row(nodes@, i as int),
        exists|t: int| 0 <= t <= i && r == (#[trigger] nodes@[t]).start_row,
{
    if i > 0 && ts_adjacent_nodes(&nodes[i - 1], &nodes[i]) {
        find_first_decoration(nodes, i - 1)
    } else {
        nodes[i].start_row
    }
}

/// The chunk start row of the node at `i` on the export, decorator and
/// decorated-definition paths: the decoration chain is entered only through
/// an immediately preceding adjacent comment.
pub open spec fn comment_entry_start_row(nodes: Seq<TsNode>, i: int) -> int {
    if 0 < i < nodes.len() && nodes[i - 1].kind == TsKind::Comment && nodes[i - 1].end_row + 1
        >= nodes[i].start_row {
        ts_first_decoration_row(nodes, i - 1)
    } else if 0 <= i < nodes.len() {
        nodes[i].start_row as int
    } else {
        0
    }
}

fn comment_entry_start(nodes: &Vec<TsNode>, i: usize) -> (r: usize)
    requires
        i < nodes@.len(),
    ensures
        r as int == comment_entry_start_row(nodes@, i as int),
        exists|t: int| 0 <= t <= i && r == (#[trigger] nodes@[t]).start_row,
{
    if i > 0 && matches!(nodes[i - 1].kind, TsKind::Comment) && (nodes[i].start_row == 0 || nodes[i
        - 1].end_row >= nodes[i].start_row - 1) {
        find_first_decoration(nodes, i - 1)
    } else {
        nodes[i].start_row
    }
}

/// Kinds that count as items when deciding whether a comment decorates what
/// follows it.
pub open spec fn ts_is_item_kind(k: TsKind) -> bool {
    k == TsKind::ClassDecl || k == TsKind::InterfaceDecl || k == TsKind::TypeAliasDecl || k
        == TsKind::EnumDecl || k == TsKind::FunctionDecl || k == TsKind::Lexical || k
        == TsKind::Export || k == TsKind::DecoratedDef
}

/// The comment at `j` reaches an item through a contiguous chain of
/// comments and decorators.
pub open spec fn ts_comment_before_item(nodes: Seq<TsNode>, j: int) -> bool
    decreases nodes.len() - j,
{
    if 0 <= j && j + 1 < nodes.len() {
        let next = nodes[j + 1];
        if ts_is_item_kind(next.kind) {
            nodes[j].end_row + 1 >= next.start_row
        } else if ts_is_decoration(next.kind) && next.start_row <= nodes[j].end_row + 1 {
            ts_comment_before_item(nodes, j + 1)
        } else {
            false
        }
    } else {
        false
    }
}

/// Checks whether the comment at `j` decorates a following item.
pub fn is_comment_before_item(nodes: &Vec<TsNode>, j: usize) -> (r: bool)
    requires
        j < nodes@.len(),
    ensures
        r == ts_comment_before_item(nodes@, j as int),
    decreases nodes@.len() - j,
{
    if j < nodes.len() - 1 {
        let next = &nodes[j + 1];
        if matches!(next.kind, TsKind::ClassDecl | TsKind::InterfaceDecl | TsKind::TypeAliasDecl
            | TsKind::EnumDecl | TsKind::FunctionDecl | TsKind::Lexical | TsKind::Export
            | TsKind::DecoratedDef) {
            next.start_row == 0 || nodes[j].end_row >= next.start_row - 1
        } else if (matches!(next.kind, TsKind::Comment | TsKind::Decorator)) && (next.start_row
            == 0 || next.start_row - 1 <= nodes[j].end_row) {
            is_comment_before_item(nodes, j + 1)
        } else {
            false
        }
    } else {
        false
    }
}

/// The end row of the last comment in the run of consecutive comments that
/// starts at `j`.
pub open spec fn ts_last_comment_row(nodes: Seq<TsNode>, j: int) -> int
    decreases nodes.len() - j,
{
    if 0 <= j && j + 1 < nodes.len() && nodes[j + 1].kind == TsKind::Comment && nodes[j
        + 1].start_row <= nodes[j].end_row + 1 {
        ts_last_comment_row(nodes, j + 1)
    } else if 0 <= j < nodes.len() {
        nodes[j].end_row as int
    } else {
        0
    }
}

/// Finds the end row of the run of consecutive comments starting at `j`.
pub fn find_last_consecutive_comment(nodes: &Vec<TsNode>, j: usize) -> (r: usize)
    requires
        j < nodes@.len(),
    ensures
        r as int == ts_last_comment_row(nodes@, j as int),
        exists|t: int| j <= t < nodes@.len() && r == (#[trigger] nodes@[t]).end_row,
    decreases nodes@.len() - j,
{
    if j < nodes.len() - 1 && nodes[j + 1].kind == TsKind::Comment && (nodes[j + 1].start_row == 0
        || nodes[j + 1].start_row - 1 <= nodes[j].end_row) {
        find_last_consecutive_comment(nodes, j + 1)
    } else {
        nodes[j].end_row
    }
}

/// The chunk kind a decorated node yields: the kind of its `declaration`
/// field for an export statement, else the kind of the node itself, for
/// class, function and interface declarations.
pub open spec fn decorated_pair_kind(n: TsNode) -> Option<ChunkKind> {
    if n.kind == TsKind::Export {
        n.decl_cif
    } else if n.kind == TsKind::ClassDecl {
        Some(ChunkKind::Class)
    } else if n.kind == TsKind::FunctionDecl {
        Some(ChunkKind::Function)
    } else if n.kind == TsKind::InterfaceDecl {
        Some(ChunkKind::Interface)
    } else {
        None
    }
}

fn decorated_pair_kind_of(n: &TsNode) -> (k: Option<ChunkKind>)
    ensures
        k == decorated_pair_kind(*n),
{
    match n.kind {
        TsKind::Export => n.decl_cif,
        TsKind::ClassDecl => Some(ChunkKind::Class),
        TsKind::FunctionDecl => Some(ChunkKind::Function),
        TsKind::InterfaceDecl => Some(ChunkKind::Interface),
        _ => None,
    }
}

/// The chunk kind a plain node of the standard path yields, ignoring
/// whether it is kept.
pub open spec fn standard_kind(k: TsKind) -> ChunkKind {
    if k == TsKind::ClassDecl {
        ChunkKind::Class
    } else if k == TsKind::InterfaceDecl {
        ChunkKind::Interface
    } else if k == TsKind::TypeAliasDecl {
        ChunkKind::TypeAlias
    } else if k == TsKind::EnumDecl {
        ChunkKind::Enum
    } else {
        ChunkKind::Function
    }
}

/// The chunk spans (kind, start row, end row) that the chunker emits from
/// node `i` on, given the rows already processed.
pub open spec fn ts_model_from(nodes: Seq<TsNode>, i: int, processed: Set<int>) -> Seq<
    (ChunkKind, int, int),
>
    decreases nodes.len() - i,
{
    if i < 0 || i >= nodes.len() {
        Seq::empty()
    } else {
        let n = nodes[i];
        if n.kind == TsKind::Import || n.kind == TsKind::ImportAlias {
            ts_model_from(nodes, i + 1, processed)
        } else if processed.contains(n.start_row as int) {
            ts_model_from(nodes, i + 1, processed)
        } else if n.kind == TsKind::Decorator {
            if i + 1 < nodes.len() && !processed.contains(nodes[i + 1].start_row as int)
                && decorated_pair_kind(nodes[i + 1]) is Some {
                let k = decorated_pair_kind(nodes[i + 1])->0;
                let s = comment_entry_start_row(nodes, i);
                let e = nodes[i + 1].end_row as int;
                seq![(k, s, e)] + ts_model_from(nodes, i + 1, processed.union(range_rows(s, e)))
            } else {
                ts_model_from(nodes, i + 1, processed)
            }
        } else if n.kind == TsKind::ClassDecl || n.kind == TsKind::InterfaceDecl || n.kind
            == TsKind::EnumDecl || n.kind == TsKind::FunctionDecl || n.kind
            == TsKind::ArrowFunction || n.kind == TsKind::MethodDef {
            let s = ts_chunk_start_row(nodes, i);
            let e = n.end_row as int;
            seq![(standard_kind(n.kind), s, e)] + ts_model_from(
                nodes,
                i + 1,
                processed.union(range_rows(s, e)),
            )
        } else if n.kind == TsKind::TypeAliasDecl {
            if n.starts_export {
                let s = ts_chunk_start_row(nodes, i);
                let e = n.end_row as int;
                seq![(ChunkKind::TypeAlias, s, e)] + ts_model_from(
                    nodes,
                    i + 1,
                    processed.union(range_rows(s, e)),
                )
            } else {
                ts_model_from(nodes, i + 1, processed)
            }
        } else if n.kind == TsKind::Lexical {
            if n.export_const_or_let {
                let s = ts_chunk_start_row(nodes, i);
                let e = n.end_row as int;
                seq![(ChunkKind::Const, s, e)] + ts_model_from(
                    nodes,
                    i + 1,
                    processed.union(range_rows(s, e)),
                )
            } else {
                ts_model_from(nodes, i + 1, processed)
            }
        } else if n.kind == TsKind::Export {
            let s = comment_entry_start_row(nodes, i);
            let e = n.end_row as int;
            if n.has_decorator_child {
                if n.last_cif is Some {
                    seq![(n.last_cif->0, s, e)] + ts_model_from(
                        nodes,
                        i + 1,
                        processed.union(range_rows(s, e)),
                    )
                } else {
                    ts_model_from(nodes, i + 1, processed)
                }
            } else if n.has_lexical_child {
                seq![(ChunkKind::Const, s, e)] + ts_model_from(
                    nodes,
                    i + 1,
                    processed.union(range_rows(s, e)),
                )
            } else if n.first_decl is Some {
                seq![(n.first_decl->0, s, e)] + ts_model_from(
                    nodes,
                    i + 1,
                    processed.union(range_rows(s, e)),
                )
            } else {
                ts_model_from(nodes, i + 1, processed)
            }
        } else if n.kind == TsKind::DecoratedDef {
            if n.last_dd is Some {
                let s = comment_entry_start_row(nodes, i);
                let e = n.end_row as int;
                seq![(n.last_dd->0, s, e)] + ts_model_from(
                    nodes,
                    i + 1,
                    processed.union(range_rows(s, e)),
                )
            } else {
                ts_model_from(nodes, i + 1, processed)
            }
        } else if n.kind == TsKind::Comment {
            if ts_comment_before_item(nodes, i) {
                ts_model_from(nodes, i + 1, processed)
            } else {
                let s = ts_chunk_start_row(nodes, i);
                let e = ts_last_comment_row(nodes, i);
                seq![(ChunkKind::Comment, s, e)] + ts_model_from(
                    nodes,
                    i + 1,
                    processed.union(range_rows(s, e)),
                )
            }
        } else {
            ts_model_from(nodes, i + 1, processed)
        }
    }
}

/// The chunk spans of a whole record list.
pub open spec fn ts_chunk_spans(nodes: Seq<TsNode>) -> Seq<(ChunkKind, int, int)> {
    ts_model_from(nodes, 0, Set::empty())
}

/// The emitted chunks follow the chunker model on `nodes` over `lines`.
pub open spec fn ts_chunks_match(nodes: Seq<TsNode>, lines: Seq<Seq<char>>, out: Seq<
    Chunk,
>) -> bool {
    &&& spans_of(out) == ts_chunk_spans(nodes)
    &&& forall|k: int| 0 <= k < out.len() ==> chunk_wf(#[trigger] out[k], lines)
}

/// Emits the chunks of a file from its top-level node records and its lines.
pub fn ts_chunks_from_nodes(nodes: &Vec<TsNode>, lines: &Vec<String>) -> (out: Vec<Chunk>)
    requires
        ts_rows_clamped(nodes@),
    ensures
        ts_chunks_match(nodes@, lines.deep_view(), out@),
{
    let ghost dv = lines.deep_view();
    let mut out: Vec<Chunk> = Vec::new();
    let mut processed: Vec<usize> = Vec::new();
    proof {
        assert(row_set(processed@) =~= Set::<int>::empty());
        assert(spans_of(out@) =~= Seq::<(ChunkKind, int, int)>::empty());
        assert(spans_of(out@) + ts_model_from(nodes@, 0, row_set(processed@)) =~= ts_chunk_spans(
            nodes@,
        ));
    }
    for i in 0..nodes.len()
        invariant
            ts_rows_clamped(nodes@),
            dv == lines.deep_view(),
            ts_chunk_spans(nodes@) == spans_of(out@) + ts_model_from(
                nodes@,
                i as int,
                row_set(processed@),
            ),
            forall|k: int| 0 <= k < out@.len() ==> chunk_wf(#[trigger] out@[k], dv),
    {
        let n = nodes[i];
        let mut emit: Option<(ChunkKind, usize, usize)> = None;
        if matches!(n.kind, TsKind::Import | TsKind::ImportAlias) {
            // ignored kinds
        } else if row_processed(&processed, n.start_row) {
            // already part of an earlier chunk
        } else if matches!(n.kind, TsKind::Decorator) {
            if i < nodes.len() - 1 && !row_processed(&processed, nodes[i + 1].start_row) {
                match decorated_pair_kind_of(&nodes[i + 1]) {
                    Some(k) => {
                        let s = comment_entry_start(nodes, i);
                        emit = Some((k, s, nodes[i + 1].end_row));
                    },
                    None => {},
                }
            }
        } else if matches!(n.kind, TsKind::ClassDecl | TsKind::InterfaceDecl | TsKind::EnumDecl
            | TsKind::FunctionDecl | TsKind::ArrowFunction | TsKind::MethodDef) {
            let k = match n.kind {
                TsKind::ClassDecl => ChunkKind::Class,
                TsKind::InterfaceDecl => ChunkKind::Interface,
                TsKind::EnumDecl => ChunkKind::Enum,
                _ => ChunkKind::Function,
            };
            assert(k == standard_kind(n.kind));
            let s = ts_chunk_start(nodes, i);
            emit = Some((k, s, n.end_row));
        } else if matches!(n.kind, TsKind::TypeAliasDecl) {
            if n.starts_export {
                let s = ts_chunk_start(nodes, i);
                emit = Some((ChunkKind::TypeAlias, s, n.end_row));
            }
        } else if matches!(n.kind, TsKind::Lexical) {
            if n.export_const_or_let {
                let s = ts_chunk_start(nodes, i);
                emit = Some((ChunkKind::Const, s, n.end_row));
            }
        } else if matches!(n.kind, TsKind::Export) {
            let s = comment_entry_start(nodes, i);
            if n.has_decorator_child {
                match n.last_cif {
                    Some(k) => { emit = Some((k, s, n.end_row)) },
                    None => {},
                }
            } else if n.has_lexical_child {
                emit = Some((ChunkKind::Const, s, n.end_row));
            } else {
                match n.first_decl {
                    Some(k) => { emit = Some((k, s, n.end_row)) },
                    None => {},
                }
            }
        } else if matches!(n.kind, TsKind::DecoratedDef) {
            match n.last_dd {
                Some(k) => {
                    let s = comment_entry_start(nodes, i);
                    emit = Some((k, s, n.end_row));
                },
                None => {},
            }
        } else if matches!(n.kind, TsKind::Comment) {
            if !is_comment_before_item(nodes, i) {
                let s = ts_chunk_start(nodes, i);
                let e = find_last_consecutive_comment(nodes, i);
                emit = Some((ChunkKind::Comment, s, e));
            }
        } else {
            // other kinds produce no chunk
        }
        match emit {
            Some((k, s, e)) => {
                mark_lines_processed(&mut processed, s, e);
                let content = chunk_content(lines, s, e);
                let ghost prev = out@;
                out.push(Chunk { kind: k, start_line: s + 1, end_line: e + 1, content });
                proof {
                    assert(spans_of(out@) =~= spans_of(prev).push((k, s as int, e as int)));
                    assert(spans_of(prev).push((k, s as int, e as int)) + ts_model_from(
                        nodes@,
                        i + 1,
                        row_set(processed@),
                    ) =~= spans_of(prev) + (seq![(k, s as int, e as int)] + ts_model_from(
                        nodes@,
                        i + 1,
                        row_set(processed@),
                    )));
                }
            },
            None => {},
        }
    }
    proof {
        assert(spans_of(out@) + ts_model_from(nodes@, nodes@.len() as int, row_set(processed@))
            =~= spans_of(out@));
    }
    out
}

/// Every node spans ordered rows, and each node starts on or after the
/// row where the node before it ends — what the parser promises of the
/// root's children.
pub open spec fn ts_rows_weakly_ordered(nodes: Seq<TsNode>) -> bool {
    &&& forall|k: int| 0 <= k < nodes.len() ==> (#[trigger] nodes[k]).start_row <= nodes[k].end_row
    &&& forall|k: int|
        0 <= k && k + 1 < nodes.len() ==> (#[trigger] nodes[k]).end_row <= nodes[k + 1].start_row
}

/// The records describe real top-level syntax nodes: every node spans
/// ordered rows, and each node starts strictly below the node before it.
pub open spec fn ts_nodes_well_formed(nodes: Seq<TsNode>) -> bool {
    &&& forall|k: int| 0 <= k < nodes.len() ==> (#[trigger] nodes[k]).start_row <= nodes[k].end_row
    &&& forall|k: int|
        0 <= k && k + 1 < nodes.len() ==> (#[trigger] nodes[k]).end_row < nodes[k + 1].start_row
}

/// Strict row ordering is a special case of the weak one.
proof fn lemma_ts_strict_implies_weak(nodes: Seq<TsNode>)
    requires
        ts_nodes_well_formed(nodes),
    ensures
        ts_rows_weakly_ordered(nodes),
{
}

/// An earlier node ends strictly before a later node starts.
proof fn lemma_ts_rows_ordered(nodes: Seq<TsNode>, a: int, b: int)
    requires
        ts_nodes_well_formed(nodes),
        0 <= a < b < nodes.len(),
    ensures
        nodes[a].end_row < nodes[b].start_row,
    decreases b - a,
{
    if a + 1 < b {
        lemma_ts_rows_ordered(nodes, a + 1, b);
    }
}

/// The decoration chain ending at `j` never reaches back to or before a
/// non-decoration node at `b`.
#[verifier::rlimit(50)]
proof fn lemma_ts_chain_stops(nodes: Seq<TsNode>, j: int, b: int)
    requires
        ts_nodes_well_formed(nodes),
        0 <= b < j < nodes.len(),
        !ts_is_decoration(nodes[b].kind),
    ensures
        ts_first_decoration_row(nodes, j) > nodes[b].end_row,
    decreases j,
{
    if 0 < j && ts_adjacent(nodes[j - 1], nodes[j]) {
        if j - 1 > b {
            lemma_ts_chain_stops(nodes, j - 1, b);
        }
    } else {
        lemma_ts_rows_ordered(nodes, b, j);
    }
}

/// The earliest decoration of the chain ending at `j` starts no later than
/// node `j` itself.
proof fn lemma_ts_first_decoration_le(nodes: Seq<TsNode>, j: int)
    requires
        ts_rows_weakly_ordered(nodes),
        0 <= j < nodes.len(),
    ensures
        ts_first_decoration_row(nodes, j) <= nodes[j].start_row,
    decreases j,
{
    if 0 < j && ts_adjacent(nodes[j - 1], nodes[j]) {
        lemma_ts_first_decoration_le(nodes, j - 1);
    }
}

/// A chunk on the standard path starts no later than its node starts.
#[verifier::rlimit(50)]
proof fn lemma_ts_chunk_start_le(nodes: Seq<TsNode>, i: int)
    requires
        ts_rows_weakly_ordered(nodes),
        0 <= i < nodes.len(),
    ensures
        ts_chunk_start_row(nodes, i) <= nodes[i].start_row,
{
    if 0 < i && ts_adjacent(nodes[i - 1], nodes[i]) {
        lemma_ts_first_decoration_le(nodes, i - 1);
    }
}

/// A chunk on the comment-entry path starts no later than its node starts.
#[verifier::rlimit(50)]
proof fn lemma_ts_comment_entry_le(nodes: Seq<TsNode>, i: int)
    requires
        ts_rows_weakly_ordered(nodes),
        0 <= i < nodes.len(),
    ensures
        comment_entry_start_row(nodes, i) <= nodes[i].start_row,
{
    if 0 < i && nodes[i - 1].kind == TsKind::Comment && nodes[i - 1].end_row + 1
        >= nodes[i].start_row {
        lemma_ts_first_decoration_le(nodes, i - 1);
    }
}

/// The chunk start on the standard path lies strictly after any
/// non-decoration node before `i`.
#[verifier::rlimit(50)]
proof fn lemma_ts_chunk_start_after(nodes: Seq<TsNode>, i: int, b: int)
    requires
        ts_nodes_well_formed(nodes),
        0 <= b < i < nodes.len(),
        !ts_is_decoration(nodes[b].kind),
    ensures
        ts_chunk_start_row(nodes, i) > nodes[b].end_row,
{
    if 0 < i && ts_adjacent(nodes[i - 1], nodes[i]) {
        if i - 1 > b {
            lemma_ts_chain_stops(nodes, i - 1, b);
        }
    } else {
        lemma_ts_rows_ordered(nodes, b, i);
    }
}

/// The chunk start on the comment-entry path lies strictly after any
/// non-decoration node before `i`.
#[verifier::rlimit(50)]
proof fn lemma_ts_comment_entry_after(nodes: Seq<TsNode>, i: int, b: int)
    requires
        ts_nodes_well_formed(nodes),
        0 <= b < i < nodes.len(),
        !ts_is_decoration(nodes[b].kind),
    ensures
        comment_entry_start_row(nodes, i) > nodes[b].end_row,
{
    if 0 < i && nodes[i - 1].kind == TsKind::Comment && nodes[i - 1].end_row + 1
        >= nodes[i].start_row {
        if i - 1 > b {
            lemma_ts_chain_stops(nodes, i - 1, b);
        }
    } else {
        lemma_ts_rows_ordered(nodes, b, i);
    }
}

/// A comment run ends no earlier than its first comment ends.
proof fn lemma_ts_last_comment_ge(nodes: Seq<TsNode>, j: int)
    requires
        ts_rows_weakly_ordered(nodes),
        0 <= j < nodes.len(),
    ensures
        ts_last_comment_row(nodes, j) >= nodes[j].end_row,
    decreases nodes.len() - j,
{
    if j + 1 < nodes.len() && nodes[j + 1].kind == TsKind::Comment && nodes[j + 1].start_row
        <= nodes[j].end_row + 1 {
        lemma_ts_last_comment_ge(nodes, j + 1);
    }
}

/// Law: every chunk the model emits spans ordered rows.
#[verifier::rlimit(100)]
pub proof fn lemma_ts_model_rows_ordered(nodes: Seq<TsNode>, i: int, processed: Set<int>)
    requires
        ts_rows_weakly_ordered(nodes),
        0 <= i,
    ensures
        forall|k: int|
            0 <= k < ts_model_from(nodes, i, processed).len() ==> (#[trigger] ts_model_from(
                nodes,
                i,
                processed,
            )[k]).1 <= ts_model_from(nodes, i, processed)[k].2,
    decreases nodes.len() - i,
{
    let m0 = ts_model_from(nodes, i, processed);
    if 0 <= i < nodes.len() {
        let n = nodes[i];
        if n.kind == TsKind::Import || n.kind == TsKind::ImportAlias || processed.contains(
            n.start_row as int,
        ) {
            lemma_ts_model_rows_ordered(nodes, i + 1, processed);
            let tail = ts_model_from(nodes, i + 1, processed);
            assert forall|k: int| 0 <= k < m0.len() implies (#[trigger] m0[k]).1 <= m0[k].2 by {
                assert(m0[k] == tail[k]);
            }
        } else if n.kind == TsKind::Decorator {
            if i + 1 < nodes.len() && !processed.contains(nodes[i + 1].start_row as int)
                && decorated_pair_kind(nodes[i + 1]) is Some {
                lemma_ts_comment_entry_le(nodes, i);
                assert(nodes[i].end_row <= nodes[i + 1].start_row);
                assert(nodes[i + 1].start_row <= nodes[i + 1].end_row);
                let s = comment_entry_start_row(nodes, i);
                let e = nodes[i + 1].end_row as int;
                let p2 = processed.union(range_rows(s, e));
                lemma_ts_model_rows_ordered(nodes, i + 1, p2);
                let tail = ts_model_from(nodes, i + 1, p2);
                assert forall|k: int| 0 <= k < m0.len() implies (#[trigger] m0[k]).1
                    <= m0[k].2 by {
                    if k > 0 {
                        assert(m0[k] == tail[k - 1]);
                    }
                }
            } else {
                lemma_ts_model_rows_ordered(nodes, i + 1, processed);
                let tail = ts_model_from(nodes, i + 1, processed);
                assert forall|k: int| 0 <= k < m0.len() implies (#[trigger] m0[k]).1
                    <= m0[k].2 by {
                    assert(m0[k] == tail[k]);
                }
            }
        } else if (n.kind == TsKind::ClassDecl || n.kind == TsKind::InterfaceDecl || n.kind
            == TsKind::EnumDecl || n.kind == TsKind::FunctionDecl || n.kind
            == TsKind::ArrowFunction || n.kind == TsKind::MethodDef) || (n.kind
            == TsKind::TypeAliasDecl && n.starts_export) || (n.kind == TsKind::Lexical
            && n.export_const_or_let) {
            lemma_ts_chunk_start_le(nodes, i);
            let s = ts_chunk_start_row(nodes, i);
            let e = n.end_row as int;
            let p2 = processed.union(range_rows(s, e));
            lemma_ts_model_rows_ordered(nodes, i + 1, p2);
            let tail = ts_model_from(nodes, i + 1, p2);
            assert forall|k: int| 0 <= k < m0.len() implies (#[trigger] m0[k]).1 <= m0[k].2 by {
                if k > 0 {
                    assert(m0[k] == tail[k - 1]);
                }
            }
        } else if (n.kind == TsKind::Export && (n.has_decorator_child ==> n.last_cif is Some) && (
        !n.has_decorator_child && !n.has_lexical_child ==> n.first_decl is Some)) || (n.kind
            == TsKind::DecoratedDef && n.last_dd is Some) {
            lemma_ts_comment_entry_le(nodes, i);
            let s = comment_entry_start_row(nodes, i);
            let e = n.end_row as int;
            let p2 = processed.union(range_rows(s, e));
            lemma_ts_model_rows_ordered(nodes, i + 1, p2);
            let tail = ts_model_from(nodes, i + 1, p2);
            assert forall|k: int| 0 <= k < m0.len() implies (#[trigger] m0[k]).1 <= m0[k].2 by {
                if k > 0 {
                    assert(m0[k] == tail[k - 1]);
                }
            }
        } else if n.kind == TsKind::Comment && !ts_comment_before_item(nodes, i) {
            lemma_ts_chunk_start_le(nodes, i);
            lemma_ts_last_comment_ge(nodes, i);
            let s = ts_chunk_start_row(nodes, i);
            let e = ts_last_comment_row(nodes, i);
            let p2 = processed.union(range_rows(s, e));
            lemma_ts_model_rows_ordered(nodes, i + 1, p2);
            let tail = ts_model_from(nodes, i + 1, p2);
            assert forall|k: int| 0 <= k < m0.len() implies (#[trigger] m0[k]).1 <= m0[k].2 by {
                if k > 0 {
                    assert(m0[k] == tail[k - 1]);
                }
            }
        } else {
            lemma_ts_model_rows_ordered(nodes, i + 1, processed);
            let tail = ts_model_from(nodes, i + 1, processed);
            assert forall|k: int| 0 <= k < m0.len() implies (#[trigger] m0[k]).1 <= m0[k].2 by {
                assert(m0[k] == tail[k]);
            }
        }
    }
}

/// Every item span emitted from `m` on starts strictly after the end of
/// the non-decoration node at `b`; when `b == m`, the node's own start row
/// must already be processed, so the node emits nothing itself.
#[verifier::rlimit(100)]
proof fn lemma_ts_item_spans_after(nodes: Seq<TsNode>, b: int, m: int, processed: Set<int>)
    requires
        ts_nodes_well_formed(nodes),
        0 <= b <= m,
        b < nodes.len(),
        !ts_is_decoration(nodes[b].kind),
        b == m ==> processed.contains(nodes[b].start_row as int),
    ensures
        forall|k: int|
            0 <= k < ts_model_from(nodes, m, processed).len() && crate::chunks::rust::is_item_span(
                #[trigger] ts_model_from(nodes, m, processed)[k],
            ) ==> ts_model_from(nodes, m, processed)[k].1 > nodes[b].end_row,
    decreases nodes.len() - m,
{
    let m0 = ts_model_from(nodes, m, processed);
    if 0 <= m < nodes.len() {
        let n = nodes[m];
        if n.kind == TsKind::Import || n.kind == TsKind::ImportAlias || processed.contains(
            n.start_row as int,
        ) {
            lemma_ts_item_spans_after(nodes, b, m + 1, processed);
            let tail = ts_model_from(nodes, m + 1, processed);
            assert forall|k: int|
                0 <= k < m0.len() && crate::chunks::rust::is_item_span(#[trigger] m0[k]) implies
                m0[k].1 > nodes[b].end_row by {
                assert(m0[k] == tail[k]);
            }
        } else if n.kind == TsKind::Decorator {
            if m + 1 < nodes.len() && !processed.contains(nodes[m + 1].start_row as int)
                && decorated_pair_kind(nodes[m + 1]) is Some {
                lemma_ts_comment_entry_after(nodes, m, b);
                let s = comment_entry_start_row(nodes, m);
                let e = nodes[m + 1].end_row as int;
                let p2 = processed.union(range_rows(s, e));
                lemma_ts_item_spans_after(nodes, b, m + 1, p2);
                let tail = ts_model_from(nodes, m + 1, p2);
                assert forall|k: int|
                    0 <= k < m0.len() && crate::chunks::rust::is_item_span(
                        #[trigger] m0[k],
                    ) implies m0[k].1 > nodes[b].end_row by {
                    if k > 0 {
                        assert(m0[k] == tail[k - 1]);
                    }
                }
            } else {
                lemma_ts_item_spans_after(nodes, b, m + 1, processed);
                let tail = ts_model_from(nodes, m + 1, processed);
                assert forall|k: int|
                    0 <= k < m0.len() && crate::chunks::rust::is_item_span(
                        #[trigger] m0[k],
                    ) implies m0[k].1 > nodes[b].end_row by {
                    assert(m0[k] == tail[k]);
                }
            }
        } else if (n.kind == TsKind::ClassDecl || n.kind == TsKind::InterfaceDecl || n.kind
            == TsKind::EnumDecl || n.kind == TsKind::FunctionDecl || n.kind
            == TsKind::ArrowFunction || n.kind == TsKind::MethodDef) || (n.kind
            == TsKind::TypeAliasDecl && n.starts_export) || (n.kind == TsKind::Lexical
            && n.export_const_or_let) {
            lemma_ts_chunk_start_after(nodes, m, b);
            let s = ts_chunk_start_row(nodes, m);
            let e = n.end_row as int;
            let p2 = processed.union(range_rows(s, e));
            lemma_ts_item_spans_after(nodes, b, m + 1, p2);
            let tail = ts_model_from(nodes, m + 1, p2);
            assert forall|k: int|
                0 <= k < m0.len() && crate::chunks::rust::is_item_span(#[trigger] m0[k]) implies
                m0[k].1 > nodes[b].end_row by {
                if k > 0 {
                    assert(m0[k] == tail[k - 1]);
                }
            }
        } else if (n.kind == TsKind::Export && (n.has_decorator_child ==> n.last_cif is Some) && (
        !n.has_decorator_child && !n.has_lexical_child ==> n.first_decl is Some)) || (n.kind
            == TsKind::DecoratedDef && n.last_dd is Some) {
            lemma_ts_comment_entry_after(nodes, m, b);
            let s = comment_entry_start_row(nodes, m);
            let e = n.end_row as int;
            let p2 = processed.union(range_rows(s, e));
            lemma_ts_item_spans_after(nodes, b, m + 1, p2);
            let tail = ts_model_from(nodes, m + 1, p2);
            assert forall|k: int|
                0 <= k < m0.len() && crate::chunks::rust::is_item_span(#[trigger] m0[k]) implies
                m0[k].1 > nodes[b].end_row by {
                if k > 0 {
                    assert(m0[k] == tail[k - 1]);
                }
            }
        } else if n.kind == TsKind::Comment && !ts_comment_before_item(nodes, m) {
            let s = ts_chunk_start_row(nodes, m);
            let e = ts_last_comment_row(nodes, m);
            let p2 = processed.union(range_rows(s, e));
            lemma_ts_item_spans_after(nodes, b, m + 1, p2);
            let tail = ts_model_from(nodes, m + 1, p2);
            assert forall|k: int|
                0 <= k < m0.len() && crate::chunks::rust::is_item_span(#[trigger] m0[k]) implies
                m0[k].1 > nodes[b].end_row by {
                if k > 0 {
                    assert(m0[k] == tail[k - 1]);
                }
            }
        } else {
            lemma_ts_item_spans_after(nodes, b, m + 1, processed);
            let tail = ts_model_from(nodes, m + 1, processed);
            assert forall|k: int|
                0 <= k < m0.len() && crate::chunks::rust::is_item_span(#[trigger] m0[k]) implies
                m0[k].1 > nodes[b].end_row by {
                assert(m0[k] == tail[k]);
            }
        }
    }
}

/// Law: within one file, item spans are pairwise disjoint: an earlier item
/// span ends strictly before a later one starts.
#[verifier::rlimit(100)]
pub proof fn lemma_ts_item_spans_disjoint(nodes: Seq<TsNode>, i: int, processed: Set<int>)
    requires
        ts_nodes_well_formed(nodes),
        0 <= i,
    ensures
        forall|a: int, b: int|
            0 <= a < b < ts_model_from(nodes, i, processed).len()
                && crate::chunks::rust::is_item_span(
                #[trigger] ts_model_from(nodes, i, processed)[a],
            ) && crate::chunks::rust::is_item_span(
                #[trigger] ts_model_from(nodes, i, processed)[b],
            ) ==> ts_model_from(nodes, i, processed)[a].2 < ts_model_from(
                nodes,
                i,
                processed,
            )[b].1,
    decreases nodes.len() - i,
{
    let m0 = ts_model_from(nodes, i, processed);
    if 0 <= i < nodes.len() {
        let n = nodes[i];
        if n.kind == TsKind::Import || n.kind == TsKind::ImportAlias || processed.contains(
            n.start_row as int,
        ) {
            lemma_ts_item_spans_disjoint(nodes, i + 1, processed);
            let tail = ts_model_from(nodes, i + 1, processed);
            assert forall|a: int, b: int|
                0 <= a < b < m0.len() && crate::chunks::rust::is_item_span(#[trigger] m0[a])
                    && crate::chunks::rust::is_item_span(#[trigger] m0[b]) implies m0[a].2
                < m0[b].1 by {
                assert(m0[a] == tail[a]);
                assert(m0[b] == tail[b]);
            }
        } else if n.kind == TsKind::Decorator {
            if i + 1 < nodes.len() && !processed.contains(nodes[i + 1].start_row as int)
                && decorated_pair_kind(nodes[i + 1]) is Some {
                lemma_ts_strict_implies_weak(nodes);
                lemma_ts_comment_entry_le(nodes, i);
                lemma_ts_rows_ordered(nodes, i, i + 1);
                let s = comment_entry_start_row(nodes, i);
                let e = nodes[i + 1].end_row as int;
                let p2 = processed.union(range_rows(s, e));
                lemma_ts_item_spans_disjoint(nodes, i + 1, p2);
                assert(p2.contains(nodes[i + 1].start_row as int));
                lemma_ts_item_spans_after(nodes, i + 1, i + 1, p2);
                let tail = ts_model_from(nodes, i + 1, p2);
                assert forall|a: int, b: int|
                    0 <= a < b < m0.len() && crate::chunks::rust::is_item_span(#[trigger] m0[a])
                        && crate::chunks::rust::is_item_span(#[trigger] m0[b]) implies m0[a].2
                    < m0[b].1 by {
                    assert(m0[b] == tail[b - 1]);
                    if a > 0 {
                        assert(m0[a] == tail[a - 1]);
                    }
                }
            } else {
                lemma_ts_item_spans_disjoint(nodes, i + 1, processed);
                let tail = ts_model_from(nodes, i + 1, processed);
                assert forall|a: int, b: int|
                    0 <= a < b < m0.len() && crate::chunks::rust::is_item_span(#[trigger] m0[a])
                        && crate::chunks::rust::is_item_span(#[trigger] m0[b]) implies m0[a].2
                    < m0[b].1 by {
                    assert(m0[a] == tail[a]);
                    assert(m0[b] == tail[b]);
                }
            }
        } else if (n.kind == TsKind::ClassDecl || n.kind == TsKind::InterfaceDecl || n.kind
            == TsKind::EnumDecl || n.kind == TsKind::FunctionDecl || n.kind
            == TsKind::ArrowFunction || n.kind == TsKind::MethodDef) || (n.kind
            == TsKind::TypeAliasDecl && n.starts_export) || (n.kind == TsKind::Lexical
            && n.export_const_or_let) || ((n.kind == TsKind::Export && (n.has_decorator_child
            ==> n.last_cif is Some) && (!n.has_decorator_child && !n.has_lexical_child
            ==> n.first_decl is Some)) || (n.kind == TsKind::DecoratedDef
            && n.last_dd is Some)) {
            let s = if n.kind == TsKind::Export || n.kind == TsKind::DecoratedDef {
                comment_entry_start_row(nodes, i)
            } else {
                ts_chunk_start_row(nodes, i)
            };
            let e = n.end_row as int;
            let p2 = processed.union(range_rows(s, e));
            lemma_ts_item_spans_disjoint(nodes, i + 1, p2);
            lemma_ts_item_spans_after(nodes, i, i + 1, p2);
            let tail = ts_model_from(nodes, i + 1, p2);
            assert forall|a: int, b: int|
                0 <= a < b < m0.len() && crate::chunks::rust::is_item_span(#[trigger] m0[a])
                    && crate::chunks::rust::is_item_span(#[trigger] m0[b]) implies m0[a].2
                < m0[b].1 by {
                assert(m0[b] == tail[b - 1]);
                if a > 0 {
                    assert(m0[a] == tail[a - 1]);
                }
            }
        } else if n.kind == TsKind::Comment && !ts_comment_before_item(nodes, i) {
            let s = ts_chunk_start_row(nodes, i);
            let e = ts_last_comment_row(nodes, i);
            let p2 = processed.union(range_rows(s, e));
            lemma_ts_item_spans_disjoint(nodes, i + 1, p2);
            let tail = ts_model_from(nodes, i + 1, p2);
            assert forall|a: int, b: int|
                0 <= a < b < m0.len() && crate::chunks::rust::is_item_span(#[trigger] m0[a])
                    && crate::chunks::rust::is_item_span(#[trigger] m0[b]) implies m0[a].2
                < m0[b].1 by {
                assert(m0[b] == tail[b - 1]);
                if a > 0 {
                    assert(m0[a] == tail[a - 1]);
                }
            }
        } else {
            lemma_ts_item_spans_disjoint(nodes, i + 1, processed);
            let tail = ts_model_from(nodes, i + 1, processed);
            assert forall|a: int, b: int|
                0 <= a < b < m0.len() && crate::chunks::rust::is_item_span(#[trigger] m0[a])
                    && crate::chunks::rust::is_item_span(#[trigger] m0[b]) implies m0[a].2
                < m0[b].1 by {
                assert(m0[a] == tail[a]);
                assert(m0[b] == tail[b]);
            }
        }
    }
}

/// Whether a comment decorates a following item propagates one step along
/// an adjacent decoration.
#[verifier::rlimit(100)]
proof fn lemma_ts_before_item_step(nodes: Seq<TsNode>, j: int)
    requires
        0 <= j,
        j + 1 < nodes.len(),
        ts_is_decoration(nodes[j + 1].kind),
        nodes[j + 1].start_row <= nodes[j].end_row + 1,
    ensures
        ts_comment_before_item(nodes, j) == ts_comment_before_item(nodes, j + 1),
{
    assert(!ts_is_item_kind(nodes[j + 1].kind));
}

/// A standalone comment's run ends before any decorating comment after it.
#[verifier::rlimit(100)]
proof fn lemma_ts_run_stops_before(nodes: Seq<TsNode>, j: int, i: int)
    requires
        ts_nodes_well_formed(nodes),
        0 <= j < i < nodes.len(),
        !ts_comment_before_item(nodes, j),
        ts_comment_before_item(nodes, i),
    ensures
        ts_last_comment_row(nodes, j) < nodes[i].start_row,
    decreases i - j,
{
    if j + 1 < nodes.len() && nodes[j + 1].kind == TsKind::Comment && nodes[j + 1].start_row
        <= nodes[j].end_row + 1 {
        lemma_ts_before_item_step(nodes, j);
        lemma_ts_run_stops_before(nodes, j + 1, i);
    } else {
        lemma_ts_rows_ordered(nodes, j, i);
    }
}

/// The decoration chain of a chunk that decorates nothing never reaches
/// back to or across a comment that decorates a following item.
#[verifier::rlimit(100)]
proof fn lemma_ts_chain_above_decorating(nodes: Seq<TsNode>, c: int, i: int)
    requires
        ts_nodes_well_formed(nodes),
        0 <= i < c < nodes.len(),
        ts_is_decoration(nodes[c].kind),
        !ts_comment_before_item(nodes, c),
        ts_comment_before_item(nodes, i),
    ensures
        ts_first_decoration_row(nodes, c) > nodes[i].end_row,
    decreases c,
{
    if 0 < c && ts_adjacent(nodes[c - 1], nodes[c]) {
        lemma_ts_before_item_step(nodes, c - 1);
        if c - 1 == i {
            assert(false);
        } else {
            lemma_ts_chain_above_decorating(nodes, c - 1, i);
        }
    } else {
        lemma_ts_rows_ordered(nodes, i, c);
    }
}

/// A standalone comment chunk after a decorating comment starts strictly
/// below it.
#[verifier::rlimit(100)]
proof fn lemma_ts_comment_chunk_after(nodes: Seq<TsNode>, j: int, i: int)
    requires
        ts_nodes_well_formed(nodes),
        0 <= i < j < nodes.len(),
        nodes[j].kind == TsKind::Comment,
        !ts_comment_before_item(nodes, j),
        ts_comment_before_item(nodes, i),
    ensures
        ts_chunk_start_row(nodes, j) > nodes[i].end_row,
{
    if ts_adjacent(nodes[j - 1], nodes[j]) {
        lemma_ts_before_item_step(nodes, j - 1);
        if j - 1 == i {
            assert(false);
        } else {
            lemma_ts_chain_above_decorating(nodes, j - 1, i);
        }
    } else {
        lemma_ts_rows_ordered(nodes, i, j);
    }
}

/// The child summaries of a record hold only declaration chunk kinds, as
/// the conversion from raw parser nodes produces them.
pub open spec fn ts_record_kinds_wf(nodes: Seq<TsNode>) -> bool {
    forall|k: int|
        0 <= k < nodes.len() ==> {
            let n = #[trigger] nodes[k];
            &&& (n.first_decl matches Some(c) ==> c != ChunkKind::Comment)
            &&& (n.last_cif matches Some(c) ==> c != ChunkKind::Comment)
            &&& (n.last_dd matches Some(c) ==> c != ChunkKind::Comment)
            &&& (n.decl_cif matches Some(c) ==> c != ChunkKind::Comment)
        }
}

/// Law: a comment that decorates a following item is never part of a
/// standalone Comment chunk: no Comment span of the model covers its row.
#[verifier::rlimit(100)]
pub proof fn lemma_ts_decorating_comment_not_standalone(
    nodes: Seq<TsNode>,
    i: int,
    m: int,
    processed: Set<int>,
)
    requires
        ts_nodes_well_formed(nodes),
        ts_record_kinds_wf(nodes),
        0 <= i < nodes.len(),
        nodes[i].kind == TsKind::Comment,
        ts_comment_before_item(nodes, i),
        0 <= m,
    ensures
        forall|k: int|
            0 <= k < ts_model_from(nodes, m, processed).len() && (#[trigger] ts_model_from(
                nodes,
                m,
                processed,
            )[k]).0 == ChunkKind::Comment ==> !(ts_model_from(nodes, m, processed)[k].1
                <= nodes[i].start_row <= ts_model_from(nodes, m, processed)[k].2),
    decreases nodes.len() - m,
{
    let m0 = ts_model_from(nodes, m, processed);
    if 0 <= m < nodes.len() {
        let n = nodes[m];
        if n.kind == TsKind::Import || n.kind == TsKind::ImportAlias || processed.contains(
            n.start_row as int,
        ) {
            lemma_ts_decorating_comment_not_standalone(nodes, i, m + 1, processed);
            let tail = ts_model_from(nodes, m + 1, processed);
            assert forall|k: int|
                0 <= k < m0.len() && (#[trigger] m0[k]).0 == ChunkKind::Comment implies !(
            m0[k].1 <= nodes[i].start_row <= m0[k].2) by {
                assert(m0[k] == tail[k]);
            }
        } else if n.kind == TsKind::Decorator {
            if m + 1 < nodes.len() && !processed.contains(nodes[m + 1].start_row as int)
                && decorated_pair_kind(nodes[m + 1]) is Some {
                let s = comment_entry_start_row(nodes, m);
                let e = nodes[m + 1].end_row as int;
                let p2 = processed.union(range_rows(s, e));
                lemma_ts_decorating_comment_not_standalone(nodes, i, m + 1, p2);
                let tail = ts_model_from(nodes, m + 1, p2);
                assert forall|k: int|
                    0 <= k < m0.len() && (#[trigger] m0[k]).0 == ChunkKind::Comment implies !(
                m0[k].1 <= nodes[i].start_row <= m0[k].2) by {
                    if k > 0 {
                        assert(m0[k] == tail[k - 1]);
                    }
                }
            } else {
                lemma_ts_decorating_comment_not_standalone(nodes, i, m + 1, processed);
                let tail = ts_model_from(nodes, m + 1, processed);
                assert forall|k: int|
                    0 <= k < m0.len() && (#[trigger] m0[k]).0 == ChunkKind::Comment implies !(
                m0[k].1 <= nodes[i].start_row <= m0[k].2) by {
                    assert(m0[k] == tail[k]);
                }
            }
        } else if (n.kind == TsKind::ClassDecl || n.kind == TsKind::InterfaceDecl || n.kind
            == TsKind::EnumDecl || n.kind == TsKind::FunctionDecl || n.kind
            == TsKind::ArrowFunction || n.kind == TsKind::MethodDef) || (n.kind
            == TsKind::TypeAliasDecl && n.starts_export) || (n.kind == TsKind::Lexical
            && n.export_const_or_let) || ((n.kind == TsKind::Export && (n.has_decorator_child
            ==> n.last_cif is Some) && (!n.has_decorator_child && !n.has_lexical_child
            ==> n.first_decl is Some)) || (n.kind == TsKind::DecoratedDef
            && n.last_dd is Some)) {
            let s = if n.kind == TsKind::Export || n.kind == TsKind::DecoratedDef {
                comment_entry_start_row(nodes, m)
            } else {
                ts_chunk_start_row(nodes, m)
            };
            let e = n.end_row as int;
            let p2 = processed.union(range_rows(s, e));
            lemma_ts_decorating_comment_not_standalone(nodes, i, m + 1, p2);
            let tail = ts_model_from(nodes, m + 1, p2);
            assert forall|k: int|
                0 <= k < m0.len() && (#[trigger] m0[k]).0 == ChunkKind::Comment implies !(
            m0[k].1 <= nodes[i].start_row <= m0[k].2) by {
                if k > 0 {
                    assert(m0[k] == tail[k - 1]);
                }
            }
        } else if n.kind == TsKind::Comment && !ts_comment_before_item(nodes, m) {
            let s = ts_chunk_start_row(nodes, m);
            let e = ts_last_comment_row(nodes, m);
            if m < i {
                lemma_ts_run_stops_before(nodes, m, i);
            } else {
                lemma_ts_comment_chunk_after(nodes, m, i);
                assert(nodes[i].start_row <= nodes[i].end_row);
            }
            let p2 = processed.union(range_rows(s, e));
            lemma_ts_decorating_comment_not_standalone(nodes, i, m + 1, p2);
            let tail = ts_model_from(nodes, m + 1, p2);
            assert forall|k: int|
                0 <= k < m0.len() && (#[trigger] m0[k]).0 == ChunkKind::Comment implies !(
            m0[k].1 <= nodes[i].start_row <= m0[k].2) by {
                if k > 0 {
                    assert(m0[k] == tail[k - 1]);
                }
            }
        } else {
            lemma_ts_decorating_comment_not_standalone(nodes, i, m + 1, processed);
            let tail = ts_model_from(nodes, m + 1, processed);
            assert forall|k: int|
                0 <= k < m0.len() && (#[trigger] m0[k]).0 == ChunkKind::Comment implies !(
            m0[k].1 <= nodes[i].start_row <= m0[k].2) by {
                assert(m0[k] == tail[k]);
            }
        }
    }
}

/// Law: within one file, no line lies in two chunks whose kinds are both
/// item kinds.
pub proof fn lemma_ts_item_chunks_disjoint(
    nodes: Seq<TsNode>,
    lines: Seq<Seq<char>>,
    out: Seq<Chunk>,
)
    requires
        ts_nodes_well_formed(nodes),
        ts_chunks_match(nodes, lines, out),
    ensures
        forall|a: int, b: int|
            0 <= a < out.len() && 0 <= b < out.len() && a != b && (#[trigger] out[a]).kind
                != ChunkKind::Comment && out[a].kind != ChunkKind::MarkdownSection && (
            #[trigger] out[b]).kind != ChunkKind::Comment && out[b].kind
                != ChunkKind::MarkdownSection ==> out[a].end_line < out[b].start_line
                || out[b].end_line < out[a].start_line,
{
    lemma_ts_item_spans_disjoint(nodes, 0, Set::empty());
    assert forall|a: int, b: int|
        0 <= a < out.len() && 0 <= b < out.len() && a != b && (#[trigger] out[a]).kind
            != ChunkKind::Comment && out[a].kind != ChunkKind::MarkdownSection && (
        #[trigger] out[b]).kind != ChunkKind::Comment && out[b].kind != ChunkKind::MarkdownSection
        implies out[a].end_line < out[b].start_line || out[b].end_line
        < out[a].start_line by {
        assert(spans_of(out)[a] == (out[a].kind, out[a].start_line as int - 1, out[a].end_line
            as int - 1));
        assert(spans_of(out)[b] == (out[b].kind, out[b].start_line as int - 1, out[b].end_line
            as int - 1));
    }
}

/// Law: for every chunk of a well-formed file, the start line is at most
/// the end line.
pub proof fn lemma_ts_chunk_lines_ordered(
    nodes: Seq<TsNode>,
    lines: Seq<Seq<char>>,
    out: Seq<Chunk>,
)
    requires
        ts_rows_weakly_ordered(nodes),
        ts_chunks_match(nodes, lines, out),
    ensures
        forall|k: int|
            0 <= k < out.len() ==> (#[trigger] out[k]).start_line <= out[k].end_line,
{
    lemma_ts_model_rows_ordered(nodes, 0, Set::empty());
    assert forall|k: int| 0 <= k < out.len() implies (#[trigger] out[k]).start_line
        <= out[k].end_line by {
        assert(spans_of(out)[k] == (out[k].kind, out[k].start_line as int - 1, out[k].end_line
            as int - 1));
    }
}

/// Law: an empty file gives an empty chunk list.
pub proof fn lemma_ts_empty_file_no_chunks(
    nodes: Seq<TsNode>,
    lines: Seq<Seq<char>>,
    out: Seq<Chunk>,
)
    requires
        nodes.len() == 0,
        ts_chunks_match(nodes, lines, out),
    ensures
        out.len() == 0,
{
    assert(spans_of(out).len() == out.len());
}

/// Parses TypeScript source code into semantic chunks, keeping the
/// documentation context of each item and capping every chunk at the token
/// limit.
///
/// The chunk list follows the chunker model on whatever node records the
/// parser handed back, over the lines of `source`.
#[verifier::rlimit(100)]
pub fn extract_typescript_chunks(source: &str) -> (out: Vec<Chunk>)
    ensures
        ts_chunks_match(
            ts_nodes_of_raw(crate::chunks::syntax::ts_raw_nodes(source@)),
            crate::strutil::spec_lines(source@),
            out@,
        ),
        ts_rows_weakly_ordered(ts_nodes_of_raw(crate::chunks::syntax::ts_raw_nodes(source@))),
        ts_record_kinds_wf(ts_nodes_of_raw(crate::chunks::syntax::ts_raw_nodes(source@))),
        forall|k: int|
            0 <= k < out@.len() ==> (#[trigger] out@[k]).start_line <= out@[k].end_line,
        source@.len() == 0 ==> out@.len() == 0,
        ts_nodes_well_formed(ts_nodes_of_raw(crate::chunks::syntax::ts_raw_nodes(source@)))
            ==> forall|a: int, b: int|
            0 <= a < out@.len() && 0 <= b < out@.len() && a != b && (#[trigger] out@[a]).kind
                != ChunkKind::Comment && out@[a].kind != ChunkKind::MarkdownSection && (
            #[trigger] out@[b]).kind != ChunkKind::Comment && out@[b].kind
                != ChunkKind::MarkdownSection ==> out@[a].end_line < out@[b].start_line
                || out@[b].end_line < out@[a].start_line,
{
    let raw = parse_ts_raw(source);
    let nodes = convert_ts_nodes(&raw);
    proof {
        let name = crate::chunks::syntax::ts_raw_nodes(source@);
        let tuples = raw@.map(
            |i: int, n: RawTsNode| crate::chunks::syntax::ts_raw_record(n),
        );
        assert(tuples == name);
        assert forall|k: int| 0 <= k < nodes@.len() implies nodes@[k] == ts_nodes_of_raw(
            name,
        )[k] by {
            assert(nodes@[k] == spec_ts_node_of(raw@[k]));
            assert(tuples[k] == crate::chunks::syntax::ts_raw_record(raw@[k]));
        }
        assert(nodes@ =~= ts_nodes_of_raw(name));
        assert forall|k: int| 0 <= k < nodes@.len() implies (#[trigger] nodes@[k]).start_row
            <= MAX_ROW && nodes@[k].end_row <= MAX_ROW by {
            assert(nodes@[k] == spec_ts_node_of(raw@[k]));
        }
        assert forall|k: int| 0 <= k < nodes@.len() implies (#[trigger] nodes@[k]).start_row
            <= nodes@[k].end_row by {
            assert(nodes@[k] == spec_ts_node_of(raw@[k]));
            assert(raw@[k].start_row <= raw@[k].end_row);
        }
        assert forall|k: int| 0 <= k && k + 1 < nodes@.len() implies (
        #[trigger] nodes@[k]).end_row <= nodes@[k + 1].start_row by {
            assert(nodes@[k] == spec_ts_node_of(raw@[k]));
            assert(nodes@[k + 1] == spec_ts_node_of(raw@[k + 1]));
            assert(raw@[k].end_row <= raw@[k + 1].start_row);
        }
        assert forall|k: int| 0 <= k < nodes@.len() implies {
            let n = #[trigger] nodes@[k];
            &&& (n.first_decl matches Some(c) ==> c != ChunkKind::Comment)
            &&& (n.last_cif matches Some(c) ==> c != ChunkKind::Comment)
            &&& (n.last_dd matches Some(c) ==> c != ChunkKind::Comment)
            &&& (n.decl_cif matches Some(c) ==> c != ChunkKind::Comment)
        } by {
            assert(nodes@[k] == spec_ts_node_of(raw@[k]));
            lemma_folds_never_comment(
                crate::chunks::syntax::ts_raw_record(raw@[k]).5,
            );
        }
    }
    let chars = to_chars(source);
    let lines = split_lines(&chars);
    let out = ts_chunks_from_nodes(&nodes, &lines);
    proof {
        lemma_ts_model_rows_ordered(nodes@, 0, Set::empty());
        assert forall|k: int| 0 <= k < out@.len() implies (#[trigger] out@[k]).start_line
            <= out@[k].end_line by {
            assert(spans_of(out@)[k] == (out@[k].kind, out@[k].start_line as int - 1,
            out@[k].end_line as int - 1));
        }
        if source@.len() == 0 {
            assert(spans_of(out@).len() == out@.len());
        }
        if ts_nodes_well_formed(nodes@) {
            lemma_ts_item_chunks_disjoint(nodes@, lines.deep_view(), out@);
        }
    }
    out
}

/// The child folds never yield a Comment kind.
proof fn lemma_folds_never_comment(cs: Seq<(Seq<char>, Seq<char>)>)
    ensures
        first_decl_of(cs) matches Some(c) ==> c != ChunkKind::Comment,
        last_cif_of(cs) matches Some(c) ==> c != ChunkKind::Comment,
        last_dd_of(cs) matches Some(c) ==> c != ChunkKind::Comment,
    decreases cs.len(),
{
    if cs.len() > 0 {
        lemma_folds_never_comment(cs.drop_last());
    }
}

} // verus!
