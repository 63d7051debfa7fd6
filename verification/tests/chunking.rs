use mem_system::code_chunker::{check_tree, chunks_from_tree, ChunkError, SyntaxNode};
use mem_system::ingest::{split_chunk_spans, split_code_chunks, wrap_chunk_spans, ChunkSpan};
use mem_system::storage::types::{ChunkKind, SymbolType};

fn spans_of(data: &[u8], size: usize) -> Vec<(usize, usize)> {
    split_chunk_spans(data, size).iter().map(|s| (s.start, s.end)).collect()
}

#[test]
fn paragraph_break_ends_a_span() {
    assert_eq!(spans_of(b"a\n\nb", 512), vec![(0, 3), (3, 4)]);
}

#[test]
fn long_text_is_cut_at_the_character_limit() {
    assert_eq!(spans_of(b"abcdef", 2), vec![(0, 2), (2, 4), (4, 6)]);
    assert_eq!(spans_of(b"abcde", 2), vec![(0, 2), (2, 4), (4, 5)]);
}

#[test]
fn empty_input_gives_no_span() {
    assert!(split_chunk_spans(b"", 512).is_empty());
}

#[test]
fn multibyte_characters_are_kept_whole() {
    let text = "éé€x";
    let spans = spans_of(text.as_bytes(), 1);
    assert_eq!(spans, vec![(0, 2), (2, 4), (4, 7), (7, 8)]);
    for (s, e) in spans {
        assert!(std::str::from_utf8(&text.as_bytes()[s..e]).is_ok());
    }
}

#[test]
fn spans_cover_the_data_in_order() {
    let text = "first paragraph\n\nsecond one is a bit longer\n\n\nthird";
    let spans = split_chunk_spans(text.as_bytes(), 10);
    assert_eq!(spans[0].start, 0);
    assert_eq!(spans.last().unwrap().end, text.len());
    for w in spans.windows(2) {
        assert_eq!(w[0].end, w[1].start);
    }
    for s in &spans {
        assert!(s.start < s.end);
        assert!(text[s.start..s.end].chars().count() <= 10);
    }
}

#[test]
fn wrapped_spans_become_paragraph_chunks() {
    let path = "notes/readme.md".to_string();
    let spans = vec![ChunkSpan { start: 0, end: 5 }, ChunkSpan { start: 5, end: 9 }];
    let chunks = wrap_chunk_spans(&path, spans, 77);
    assert_eq!(chunks.len(), 2);
    assert_eq!(chunks[1].span, (5, 9));
    let m = &chunks[1].meta;
    assert_eq!(m.file_path, "notes/readme.md");
    assert_eq!(m.byte_start, 5);
    assert_eq!(m.byte_end, 9);
    assert_eq!(m.chunk_kind, ChunkKind::Paragraph);
    assert_eq!(m.updated_at, 77);
    assert_eq!(m.language, None);
    assert_eq!(m.symbol_type, None);
    assert_eq!(m.has_docs, None);
}

#[test]
fn documented_function_gives_item_and_doc_chunks() {
    let src = "/// Adds one.\npub fn add(a: i32) -> i32 { a + 1 }\n";
    let path = "src/math.rs".to_string();
    let chunks = split_code_chunks(&path, src.as_bytes(), 5).unwrap();
    assert_eq!(chunks.len(), 2);
    let f = &chunks[0];
    assert_eq!(f.span.0, 14);
    assert_eq!(f.span.1, src.len() - 1);
    assert_eq!(f.meta.symbol_type, Some(SymbolType::Function));
    assert_eq!(f.meta.symbol_name.as_deref(), Some("add"));
    assert_eq!(f.meta.signature.as_deref(), Some("pub fn add(a: i32) -> i32"));
    assert_eq!(f.meta.is_public, Some(true));
    assert_eq!(f.meta.has_docs, Some(true));
    assert_eq!(f.meta.language.as_deref(), Some("rust"));
    assert_eq!(f.meta.ast_node_type.as_deref(), Some("function_item"));
    assert_eq!(f.meta.chunk_kind, ChunkKind::AstNode);
    assert_eq!(f.meta.file_path, "src/math.rs");
    assert_eq!(f.meta.updated_at, 5);
    let d = &chunks[1];
    assert_eq!(d.span.0, 0);
    assert_eq!(d.meta.chunk_kind, ChunkKind::DocComment);
    assert_eq!(d.meta.symbol_name.as_deref(), Some("add"));
    assert_eq!(d.meta.parent_symbol, None);
    assert_eq!(d.meta.ast_node_type.as_deref(), Some("doc_comment"));
    assert_eq!(d.meta.has_docs, Some(true));
}

#[test]
fn module_items_carry_the_module_path() {
    let src = "mod inner { fn f() {} }";
    let path = "src/lib.rs".to_string();
    let chunks = split_code_chunks(&path, src.as_bytes(), 0).unwrap();
    assert_eq!(chunks.len(), 2);
    assert_eq!(chunks[0].meta.symbol_type, Some(SymbolType::Module));
    assert_eq!(chunks[0].meta.symbol_name.as_deref(), Some("inner"));
    assert_eq!(chunks[0].meta.signature.as_deref(), Some("mod inner"));
    assert_eq!(chunks[0].meta.mod_path.as_deref(), Some("inner"));
    assert_eq!(chunks[0].span, (0, src.len()));
    assert_eq!(chunks[1].meta.symbol_type, Some(SymbolType::Function));
    assert_eq!(chunks[1].meta.symbol_name.as_deref(), Some("f"));
    assert_eq!(chunks[1].meta.mod_path.as_deref(), Some("inner"));
    assert_eq!(chunks[1].meta.is_public, Some(false));
    assert_eq!(chunks[1].meta.has_docs, Some(false));
}

#[test]
fn impl_block_gives_one_chunk_for_its_target() {
    let src = "struct S;\nimpl S { fn m(&self) {} }\n";
    let path = "src/s.rs".to_string();
    let chunks = split_code_chunks(&path, src.as_bytes(), 0).unwrap();
    assert_eq!(chunks.len(), 2);
    assert_eq!(chunks[0].meta.symbol_type, Some(SymbolType::Struct));
    assert_eq!(chunks[0].meta.symbol_name.as_deref(), Some("S"));
    assert_eq!(chunks[0].meta.signature.as_deref(), Some("struct S;"));
    assert_eq!(chunks[1].meta.symbol_type, Some(SymbolType::Impl));
    assert_eq!(chunks[1].meta.symbol_name.as_deref(), Some("S"));
    assert_eq!(chunks[1].meta.signature.as_deref(), Some("impl S"));
}

#[test]
fn code_chunks_lie_inside_the_source() {
    let src = "//! crate docs\nuse std::fmt;\n/// A.\npub struct A { x: u8 }\nenum E { X }\nconst C: u8 = 1;\n";
    let path = "src/lib.rs".to_string();
    let chunks = split_code_chunks(&path, src.as_bytes(), 0).unwrap();
    assert!(!chunks.is_empty());
    for c in &chunks {
        assert!(c.span.0 <= c.span.1 && c.span.1 <= src.len());
        assert_eq!(c.meta.byte_start as usize, c.span.0);
        assert_eq!(c.meta.byte_end as usize, c.span.1);
    }
}

fn node(kind: &str, field: Option<&str>, start: usize, end: usize, children: Vec<SyntaxNode>) -> SyntaxNode {
    SyntaxNode { kind: kind.to_string(), field: field.map(|f| f.to_string()), start_byte: start, end_byte: end, children }
}

#[test]
fn trees_that_do_not_fit_the_source_are_refused() {
    let path = "src/x.rs".to_string();
    let too_long = node("source_file", None, 0, 10, vec![]);
    assert!(!check_tree(&too_long, 3));
    assert!(matches!(chunks_from_tree(&path, b"abc", 0, too_long), Err(ChunkError::MalformedTree)));
    let overlapping = node("source_file", None, 0, 3, vec![node("a", None, 0, 2, vec![]), node("b", None, 1, 3, vec![])]);
    assert!(!check_tree(&overlapping, 3));
    let outside_parent = node("source_file", None, 1, 3, vec![node("a", None, 0, 2, vec![])]);
    assert!(!check_tree(&outside_parent, 3));
}

#[test]
fn chunks_follow_a_given_tree() {
    // `const A: u8 = 1;` with a documented const item, written out by hand.
    let src = "/// doc\nconst A: u8 = 1;";
    let path = "src/c.rs".to_string();
    let tree = node(
        "source_file",
        None,
        0,
        src.len(),
        vec![
            node("line_comment", None, 0, 8, vec![]),
            node("const_item", None, 8, src.len(), vec![node("identifier", Some("name"), 14, 15, vec![])]),
        ],
    );
    assert!(check_tree(&tree, src.len()));
    let chunks = chunks_from_tree(&path, src.as_bytes(), 3, tree).unwrap();
    assert_eq!(chunks.len(), 2);
    assert_eq!(chunks[0].meta.symbol_type, Some(SymbolType::Const));
    assert_eq!(chunks[0].meta.symbol_name.as_deref(), Some("A"));
    assert_eq!(chunks[0].meta.signature.as_deref(), Some("const A: u8 = 1;"));
    assert_eq!(chunks[0].meta.has_docs, Some(true));
    assert_eq!(chunks[0].span, (8, src.len()));
    assert_eq!(chunks[1].meta.chunk_kind, ChunkKind::DocComment);
    assert_eq!(chunks[1].span, (0, 8));
    assert_eq!(chunks[1].meta.symbol_name.as_deref(), Some("A"));
    assert_eq!(chunks[1].meta.parent_symbol, None);
}

#[test]
fn stray_continuation_bytes_do_not_grow_a_span() {
    // Bytes that begin no character still count: no span exceeds four bytes
    // per character of the limit.
    assert_eq!(spans_of(&[0x61, 0x80, 0x80, 0x80, 0x80, 0x80], 1), vec![(0, 4), (4, 6)]);
    let binary = vec![0x80u8; 1000];
    let spans = split_chunk_spans(&binary, 10);
    assert_eq!(spans.last().unwrap().end, 1000);
    for s in &spans {
        assert!(s.end - s.start <= 40);
    }
}
