use mcp_rust_docs_embed::my_types::{
    DocItem, FileRange, Item, ItemType, SourceFile, Span, create_doc_items_with_source,
    filter_impl_functions, find_start_line_with_attributes, is_span_within,
};

#[test]
fn test_is_span_within() {
    // Inner completely within outer
    let outer = FileRange { start: (10, 0), end: (20, 0) };
    let inner = FileRange { start: (12, 0), end: (18, 0) };
    assert!(is_span_within(&outer, &inner));

    // Inner starts at the same line but a later column
    let outer = FileRange { start: (10, 5), end: (20, 0) };
    let inner = FileRange { start: (10, 10), end: (18, 0) };
    assert!(is_span_within(&outer, &inner));

    // Inner starts before outer
    let outer = FileRange { start: (10, 0), end: (20, 0) };
    let inner = FileRange { start: (5, 0), end: (15, 0) };
    assert!(!is_span_within(&outer, &inner));

    // Inner ends after outer
    let outer = FileRange { start: (10, 0), end: (20, 0) };
    let inner = FileRange { start: (15, 0), end: (25, 0) };
    assert!(!is_span_within(&outer, &inner));

    // Identical spans count as within
    let outer = FileRange { start: (10, 0), end: (20, 0) };
    let inner = FileRange { start: (10, 0), end: (20, 0) };
    assert!(is_span_within(&outer, &inner));
}

fn lines_of(v: &[&str]) -> Vec<String> {
    v.iter().map(|s| s.to_string()).collect()
}

#[test]
fn test_find_start_line_with_attributes() {
    // No attributes
    let lines = lines_of(&["fn foo() {}", "    42", "}"]);
    assert_eq!(find_start_line_with_attributes(&lines, 0), 0);

    // Single attribute
    let lines = lines_of(&["#[derive(Debug)]", "struct Foo {", "    x: i32,", "}"]);
    assert_eq!(find_start_line_with_attributes(&lines, 1), 0);

    // Multiple attributes
    let lines = lines_of(&[
        "#[derive(Debug)]",
        "#[serde(rename_all = \"camelCase\")]",
        "struct Foo {",
        "    x: i32,",
        "}",
    ]);
    assert_eq!(find_start_line_with_attributes(&lines, 2), 0);

    // Attributes with empty lines
    let lines = lines_of(&[
        "#[derive(Debug)]",
        "#[serde(rename_all = \"camelCase\")]",
        "",
        "struct Foo {",
        "    x: i32,",
        "}",
    ]);
    assert_eq!(find_start_line_with_attributes(&lines, 3), 0);

    // Mixed content: stops at a non-attribute line
    let lines = lines_of(&["use std::fmt;", "#[derive(Debug)]", "struct Foo {", "    x: i32,", "}"]);
    assert_eq!(find_start_line_with_attributes(&lines, 2), 1);

    // First line, no preceding lines
    let lines = lines_of(&["struct Foo {", "    x: i32,", "}"]);
    assert_eq!(find_start_line_with_attributes(&lines, 0), 0);
}

#[test]
fn test_filter_impl_functions_drops_members() {
    let impl_item = DocItem {
        name: Some("Foo".to_string()),
        doc_string: None,
        kind: ItemType::Impl,
        source_code: "impl Foo { fn bar(&self) {} }".to_string(),
        filename: "src/lib.rs".to_string(),
        span: FileRange { start: (1, 0), end: (10, 1) },
    };
    let inner_fn = DocItem {
        name: Some("bar".to_string()),
        doc_string: None,
        kind: ItemType::Function,
        source_code: "fn bar(&self) {}".to_string(),
        filename: "src/lib.rs".to_string(),
        span: FileRange { start: (2, 4), end: (3, 5) },
    };
    let other_fn = DocItem {
        name: Some("baz".to_string()),
        doc_string: None,
        kind: ItemType::Function,
        source_code: "fn baz() {}".to_string(),
        filename: "src/other.rs".to_string(),
        span: FileRange { start: (2, 4), end: (3, 5) },
    };
    let out = filter_impl_functions(vec![impl_item, inner_fn, other_fn]);
    assert_eq!(out.len(), 2);
    assert_eq!(out[0].kind, ItemType::Impl);
    assert_eq!(out[1].name, Some("baz".to_string()));
}

#[test]
fn test_create_doc_items_with_source_basic() {
    let items = vec![Item {
        crate_id: 0,
        name: Some("P".to_string()),
        docs: Some("A point".to_string()),
        span: Some(Span { filename: "src/lib.rs".to_string(), begin: (3, 0), end: (3, 22) }),
        inner_kind: Some("struct".to_string()),
    }];
    let files = vec![SourceFile {
        filename: "src/lib.rs".to_string(),
        lines: lines_of(&["#[derive(Debug)]", "", "pub struct P { x: i32 }"]),
    }];
    let out = create_doc_items_with_source(&items, &files).unwrap();
    assert_eq!(out.len(), 1);
    assert_eq!(out[0].kind, ItemType::Struct);
    // the preceding attribute and blank line are attached
    assert_eq!(out[0].source_code, "#[derive(Debug)]\n\npub struct P { x: i32 }");
    assert_eq!(out[0].name, Some("P".to_string()));
}

#[test]
fn test_create_doc_items_missing_file_fails() {
    let items = vec![Item {
        crate_id: 0,
        name: Some("P".to_string()),
        docs: None,
        span: Some(Span { filename: "src/absent.rs".to_string(), begin: (1, 0), end: (1, 5) }),
        inner_kind: Some("struct".to_string()),
    }];
    let files: Vec<SourceFile> = Vec::new();
    assert!(create_doc_items_with_source(&items, &files).is_err());
}

#[test]
fn test_item_type_tag() {
    let it = Item {
        crate_id: 0,
        name: None,
        docs: None,
        span: None,
        inner_kind: Some("function".to_string()),
    };
    assert_eq!(it.item_type(), Some("function"));
}

#[test]
fn test_doc_item_to_text() {
    let d = DocItem {
        name: None,
        doc_string: Some("Adds one.".to_string()),
        kind: ItemType::Function,
        source_code: "fn inc(x: u32) -> u32 { x + 1 }".to_string(),
        filename: "src/lib.rs".to_string(),
        span: FileRange { start: (1, 0), end: (1, 30) },
    };
    assert_eq!(d.to_text(), "Adds one.\n\n```rust\nfn inc(x: u32) -> u32 { x + 1 }\n```");
    let bare = DocItem { doc_string: None, ..d };
    assert_eq!(bare.to_text(), "```rust\nfn inc(x: u32) -> u32 { x + 1 }\n```");
}
