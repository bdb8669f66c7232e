//! Trusted boundary to the tree-sitter parsers. Each wrapper parses a source
//! text and hands back the top-level syntax nodes as plain records; all
//! chunking decisions are made on those records by verified code.

use vstd::prelude::*;

verus! {

/// A top-level syntax node of a parsed Rust file: its grammar kind and its
/// 0-based start and end rows.
pub struct RawNode {
    pub kind: String,
    pub start_row: usize,
    pub end_row: usize,
}

/// A child of a top-level TypeScript syntax node: its grammar kind and text.
pub struct RawTsChild {
    pub kind: String,
    pub text: String,
}

/// A top-level syntax node of a parsed TypeScript file: grammar kind, rows,
/// full text, the kind of its `declaration` field if any, and its children.
pub struct RawTsNode {
    pub kind: String,
    pub start_row: usize,
    pub end_row: usize,
    pub text: String,
    pub decl_kind: Option<String>,
    pub children: Vec<RawTsChild>,
}

#[verifier::external_type_specification]
#[verifier::external_body]
pub struct ExTsNode<'a>(tree_sitter::Node<'a>);

/// The records of the top-level syntax nodes that the Rust grammar parses
/// `s` into: each as (grammar kind, start row, end row), in source order.
pub uninterp spec fn rust_raw_nodes(s: Seq<char>) -> Seq<(Seq<char>, usize, usize)>;

/// The record a raw TypeScript node flattens to: grammar kind, rows, text,
/// the kind of the `declaration` field, and the (kind, text) pairs of the
/// children.
pub open spec fn ts_raw_record(n: RawTsNode) -> (
    Seq<char>,
    usize,
    usize,
    Seq<char>,
    Option<Seq<char>>,
    Seq<(Seq<char>, Seq<char>)>,
) {
    (
        n.kind@,
        n.start_row,
        n.end_row,
        n.text@,
        match n.decl_kind {
            Some(s) => Some(s@),
            None => None,
        },
        n.children@.map(|j: int, c: RawTsChild| (c.kind@, c.text@)),
    )
}

/// The records of the top-level syntax nodes that the TypeScript grammar
/// parses `s` into, flattened as [`ts_raw_record`] does, in source order.
pub uninterp spec fn ts_raw_nodes(s: Seq<char>) -> Seq<
    (Seq<char>, usize, usize, Seq<char>, Option<Seq<char>>, Seq<(Seq<char>, Seq<char>)>),
>;

/// Relies on `tree_sitter::Parser::parse` with the `tree_sitter_rust`
/// grammar: the tree depends on the source alone, so the records are a
/// function of it; the root's children come in source order, each spans
/// ordered rows, and a child starts on or after the row where the child
/// before it ends; an empty source has no children. An empty record list
/// stands for a failed parse.
#[verifier::external_body]
pub fn parse_rust_raw(source: &str) -> (r: Vec<RawNode>)
    ensures
        r@.map(|i: int, n: RawNode| (n.kind@, n.start_row, n.end_row)) == rust_raw_nodes(source@),
        source@.len() == 0 ==> r@.len() == 0,
        forall|k: int| 0 <= k < r@.len() ==> (#[trigger] r@[k]).start_row <= r@[k].end_row,
        forall|k: int|
            0 <= k && k + 1 < r@.len() ==> (#[trigger] r@[k]).end_row <= r@[k + 1].start_row,
{
    let mut parser = tree_sitter::Parser::new();
    if parser.set_language(&tree_sitter_rust::LANGUAGE.into()).is_err() {
        return Vec::new();
    }
    let Some(tree) = parser.parse(source, None) else { return Vec::new() };
    let root = tree.root_node();
    let mut cursor = root.walk();
    root.children(&mut cursor).map(|n| RawNode {
        kind: n.kind().to_string(),
        start_row: n.start_position().row,
        end_row: n.end_position().row,
    }).collect()
}

/// Relies on `tree_sitter::Node` accessors (`kind`, `start_position`,
/// `end_position`, `utf8_text`, `child_by_field_name`, `children`): copies
/// one node out as a plain record.
#[verifier::external_body]
fn raw_ts_of(n: &tree_sitter::Node<'_>, source: &str) -> (r: RawTsNode) {
    let mut cursor = n.walk();
    RawTsNode {
        kind: n.kind().to_string(),
        start_row: n.start_position().row,
        end_row: n.end_position().row,
        text: n.utf8_text(source.as_bytes()).unwrap_or("").to_string(),
        decl_kind: n.child_by_field_name("declaration").map(|d| d.kind().to_string()),
        children: n.children(&mut cursor).map(|c| RawTsChild {
            kind: c.kind().to_string(),
            text: c.utf8_text(source.as_bytes()).unwrap_or("").to_string(),
        }).collect(),
    }
}

/// Relies on `tree_sitter::Parser::parse` with the TypeScript grammar of
/// `tree_sitter_typescript`: the tree depends on the source alone, so the
/// records are a function of it; the root's children come in source order,
/// each spans ordered rows, and a child starts on or after the row where
/// the child before it ends; an empty source has no children. An empty
/// record list stands for a failed parse.
#[verifier::external_body]
pub fn parse_ts_raw(source: &str) -> (r: Vec<RawTsNode>)
    ensures
        r@.map(|i: int, n: RawTsNode| ts_raw_record(n)) == ts_raw_nodes(source@),
        source@.len() == 0 ==> r@.len() == 0,
        forall|k: int| 0 <= k < r@.len() ==> (#[trigger] r@[k]).start_row <= r@[k].end_row,
        forall|k: int|
            0 <= k && k + 1 < r@.len() ==> (#[trigger] r@[k]).end_row <= r@[k + 1].start_row,
{
    let mut parser = tree_sitter::Parser::new();
    if parser.set_language(&tree_sitter_typescript::LANGUAGE_TYPESCRIPT.into()).is_err() {
        return Vec::new();
    }
    let Some(tree) = parser.parse(source, None) else { return Vec::new() };
    let root = tree.root_node();
    let mut cursor = root.walk();
    root.children(&mut cursor).map(|n| raw_ts_of(&n, source)).collect()
}

} // verus!
