use mcp_rust_docs_embed::chunks::{ChunkKind, rust::extract_rust_chunks};
use mcp_rust_docs_embed::tokens::{count_tokens, trim_to_token_limit};

#[test]
fn test_struct_with_doc_comment_single_chunk() {
    let source = "/// A point\n#[derive(Debug)]\npub struct P { x: i32 }";
    let chunks = extract_rust_chunks(source);
    assert_eq!(chunks.len(), 1);
    assert_eq!(chunks[0].kind, ChunkKind::Struct);
    assert_eq!(chunks[0].start_line, 1);
    assert_eq!(chunks[0].end_line, 3);
    assert_eq!(chunks[0].content, source);
}

#[test]
fn test_impl_member_not_emitted_separately() {
    let source = "impl Foo { fn bar(&self) {} }";
    let chunks = extract_rust_chunks(source);
    let impls = chunks.iter().filter(|c| c.kind == ChunkKind::Impl).count();
    let functions = chunks.iter().filter(|c| c.kind == ChunkKind::Function).count();
    assert_eq!(impls, 1);
    assert_eq!(functions, 0);
    assert_eq!(chunks.len(), 1);
}

#[test]
fn test_empty_file_no_chunks() {
    assert!(extract_rust_chunks("").is_empty());
}

#[test]
fn test_comment_only_file() {
    let source = "// one\n// two\n\n// three\n";
    let chunks = extract_rust_chunks(source);
    assert_eq!(chunks.len(), 2);
    assert!(chunks.iter().all(|c| c.kind == ChunkKind::Comment));
    assert_eq!((chunks[0].start_line, chunks[0].end_line), (1, 2));
    assert_eq!((chunks[1].start_line, chunks[1].end_line), (4, 4));
    assert_eq!(chunks[0].content, "// one\n// two");
    assert_eq!(chunks[1].content, "// three");
}

#[test]
fn test_comment_before_item_not_standalone() {
    let source = "// describes A\nstruct A;\n\n// floating note\n";
    let chunks = extract_rust_chunks(source);
    assert_eq!(chunks.len(), 2);
    assert_eq!(chunks[0].kind, ChunkKind::Struct);
    assert_eq!((chunks[0].start_line, chunks[0].end_line), (1, 2));
    assert_eq!(chunks[1].kind, ChunkKind::Comment);
    assert_eq!((chunks[1].start_line, chunks[1].end_line), (4, 4));
}

#[test]
fn test_use_declarations_ignored() {
    let source = "use std::fmt;\n\nfn main() {}\n";
    let chunks = extract_rust_chunks(source);
    assert_eq!(chunks.len(), 1);
    assert_eq!(chunks[0].kind, ChunkKind::Function);
    assert_eq!((chunks[0].start_line, chunks[0].end_line), (3, 3));
}

#[test]
fn test_no_line_in_two_item_chunks() {
    let source = "/// a\nstruct A;\n/// b\nstruct B;\nimpl A { fn x() {} }\nenum E { V }\n";
    let chunks = extract_rust_chunks(source);
    let items: Vec<_> = chunks
        .iter()
        .filter(|c| c.kind != ChunkKind::Comment && c.kind != ChunkKind::MarkdownSection)
        .collect();
    for a in 0..items.len() {
        for b in 0..items.len() {
            if a != b {
                assert!(
                    items[a].end_line < items[b].start_line
                        || items[b].end_line < items[a].start_line
                );
            }
        }
    }
}

#[test]
fn test_over_token_item_truncated() {
    let mut body = String::new();
    for i in 0..9000 {
        body.push_str(&format!("    let v{i} = {i};\n"));
    }
    let source = format!("fn big() {{\n{body}}}");
    assert!(count_tokens(&source).unwrap() > 8192);
    let chunks = extract_rust_chunks(&source);
    assert_eq!(chunks.len(), 1);
    assert_eq!(chunks[0].kind, ChunkKind::Function);
    // the chunk keeps its original line range
    assert_eq!(chunks[0].start_line, 1);
    assert_eq!(chunks[0].end_line as usize, source.lines().count());
    // but its content is capped at the token limit
    assert_eq!(count_tokens(&chunks[0].content).unwrap(), 8192);
    assert!(chunks[0].content.len() < source.len());
}

#[test]
fn test_trim_keeps_short_content() {
    let text = "fn tiny() {}";
    assert!(count_tokens(text).unwrap() <= 8192);
    assert_eq!(trim_to_token_limit(text), Some(text.to_string()));
}
