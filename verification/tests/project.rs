use mem_system::storage::hash::hash_chunk;
use mem_system::file_hashes::{needs_reindex, stale_paths, FileHashes};
use mem_system::store::{
    active_project_content, active_project_file, build_search_text, chunk_text, hash_file_contents,
    is_ignored_dir, parse_active_project, prepare_file_chunks, project_dir, project_hash,
    relative_path, ActiveProjectError, NotUnderRoot,
};
use mem_system::storage::types::{ChunkId, ChunkKind, ChunkMeta, SymbolType};

fn plain_meta(path: &str, start: u64, end: u64) -> ChunkMeta {
    ChunkMeta {
        file_path: path.to_string(),
        file_hash: 0,
        byte_start: start,
        byte_end: end,
        chunk_kind: ChunkKind::Paragraph,
        updated_at: 0,
        language: None,
        symbol_type: None,
        symbol_name: None,
        mod_path: None,
        parent_symbol: None,
        signature: None,
        ast_node_type: None,
        is_public: None,
        has_docs: None,
    }
}

#[test]
fn hex_rendering_is_lowercase_and_reads_back() {
    let mut hash = [0u8; 32];
    hash[0] = 0xab;
    hash[31] = 0x0f;
    let id = ChunkId { hash };
    let hex = id.to_hex();
    assert_eq!(hex.len(), 64);
    assert!(hex.starts_with("ab00"));
    assert!(hex.ends_with("000f"));
    assert_eq!(ChunkId::from_hex(&hex), Some(id));
}

#[test]
fn from_hex_accepts_upper_case_and_rejects_bad_input() {
    let upper = "AB".repeat(32);
    assert_eq!(ChunkId::from_hex(&upper), Some(ChunkId { hash: [0xab; 32] }));
    assert_eq!(ChunkId::from_hex("abc"), None);
    assert_eq!(ChunkId::from_hex(&"zz".repeat(32)), None);
    assert_eq!(ChunkId::from_hex(&"0".repeat(66)), None);
}

#[test]
fn from_hex_reads_pairs_as_radix_sixteen_numbers() {
    // A pair is read like `u8::from_str_radix(pair, 16)`, which takes a plus sign.
    let text = format!("+7{}", "00".repeat(31));
    let mut expected = [0u8; 32];
    expected[0] = 7;
    assert_eq!(ChunkId::from_hex(&text), Some(ChunkId { hash: expected }));
}

#[test]
fn same_compares_digests() {
    let a = ChunkId { hash: [1; 32] };
    let b = ChunkId { hash: [1; 32] };
    let mut h = [1u8; 32];
    h[31] = 2;
    let c = ChunkId { hash: h };
    assert!(a.same(&b));
    assert!(!a.same(&c));
}

#[test]
fn chunk_digest_is_blake3_of_the_bytes() {
    assert_eq!(
        hash_chunk(b"").to_hex(),
        "af1349b9f5f9a1a6a0404dea36dcc9499bcb25c9adc112b7cc9a93cae41f3262"
    );
    assert_ne!(hash_chunk(b"fn a() {}"), hash_chunk(b"fn b() {}"));
    assert_eq!(hash_chunk(b"same"), hash_chunk(b"same"));
}

#[test]
fn project_directory_is_named_by_sixteen_hex_digits() {
    assert_eq!(project_dir(0x1234), "vector_db/0000000000001234");
    assert_eq!(project_dir(u64::MAX), "vector_db/ffffffffffffffff");
    assert_eq!(active_project_file(), "vector_db/active_project");
}

#[test]
fn active_project_record_round_trips() {
    let content = active_project_content(42, "/home/me/project");
    assert_eq!(content, "42\n/home/me/project");
    assert_eq!(parse_active_project(&content), Ok((42, "/home/me/project".to_string())));
    let big = active_project_content(u64::MAX, "/p");
    assert_eq!(parse_active_project(&big), Ok((u64::MAX, "/p".to_string())));
}

#[test]
fn active_project_record_errors() {
    assert_eq!(parse_active_project(""), Err(ActiveProjectError::MissingHash));
    assert_eq!(parse_active_project("abc\n/p"), Err(ActiveProjectError::InvalidHash));
    assert_eq!(parse_active_project("18446744073709551616\n/p"), Err(ActiveProjectError::InvalidHash));
    assert_eq!(parse_active_project("42"), Err(ActiveProjectError::MissingRoot));
    assert_eq!(parse_active_project("42\n"), Err(ActiveProjectError::MissingRoot));
    assert_eq!(parse_active_project("7\r\n/p\r\nmore"), Ok((7, "/p".to_string())));
    assert_eq!(parse_active_project("+7\n/p"), Ok((7, "/p".to_string())));
}

#[test]
fn hashes_depend_on_content() {
    assert_ne!(hash_file_contents(b"fn a() {}"), hash_file_contents(b"fn b() {}"));
    assert_eq!(hash_file_contents(b"fn a() {}"), hash_file_contents(b"fn a() {}"));
    assert_eq!(project_hash("/x/y"), project_hash("/x/y"));
    assert_ne!(project_hash("/x/y"), project_hash("/x/z"));
}

#[test]
fn ignored_directories() {
    assert!(is_ignored_dir("project/target"));
    assert!(is_ignored_dir(".git"));
    assert!(is_ignored_dir("/a/b/vector_db"));
    assert!(!is_ignored_dir("project/src"));
    assert!(!is_ignored_dir("project/targets"));
    assert!(!is_ignored_dir("/"));
}

#[test]
fn relative_paths_under_the_root() {
    assert_eq!(relative_path("/root/p", "/root/p/src/lib.rs"), Ok("src/lib.rs".to_string()));
    assert_eq!(relative_path("/root/p", "/root/q/src/lib.rs"), Err(NotUnderRoot));
    assert_eq!(relative_path("/root/p", "/root/pq/lib.rs"), Err(NotUnderRoot));
}

#[test]
fn search_text_lists_known_parts_one_per_line() {
    let mut m = plain_meta("src/lib.rs", 0, 1);
    m.symbol_name = Some("add".to_string());
    m.signature = Some("pub fn add(a: i32) -> i32".to_string());
    m.mod_path = Some("math".to_string());
    assert_eq!(
        build_search_text(&m, "{ a + 1 }"),
        "add\npub fn add(a: i32) -> i32\nmath\nsrc/lib.rs\n{ a + 1 }"
    );
    let p = plain_meta("notes.md", 0, 1);
    assert_eq!(build_search_text(&p, "hello"), "notes.md\nhello");
}

fn hashes(entries: &[(&str, u64)]) -> FileHashes {
    let mut h = FileHashes::new();
    for (p, v) in entries {
        h.insert(p.to_string(), *v);
    }
    h
}

#[test]
fn recorded_hashes_are_kept_once_per_path() {
    let mut h = hashes(&[("a.rs", 1), ("b.rs", 2), ("a.rs", 9)]);
    assert_eq!(h.len(), 2);
    assert_eq!(h.get(&"a.rs".to_string()), Some(9));
    assert_eq!(h.get(&"b.rs".to_string()), Some(2));
    assert_eq!(h.get(&"c.rs".to_string()), None);
    h.remove(&"a.rs".to_string());
    assert_eq!(h.get(&"a.rs".to_string()), None);
    assert_eq!(h.len(), 1);
    h.remove(&"missing.rs".to_string());
    assert_eq!(h.len(), 1);
}

#[test]
fn reindex_when_hash_is_new_or_changed() {
    let known = hashes(&[("a.rs", 1), ("b.rs", 2)]);
    assert!(!needs_reindex(&known, &"a.rs".to_string(), 1));
    assert!(needs_reindex(&known, &"a.rs".to_string(), 9));
    assert!(needs_reindex(&known, &"c.rs".to_string(), 1));
    assert!(!needs_reindex(&known, &"b.rs".to_string(), 2));
}

#[test]
fn stale_paths_are_recorded_files_gone_from_disk() {
    let known = hashes(&[("a.rs", 1), ("b.rs", 2), ("c.rs", 3), ("d.rs", 4)]);
    let on_disk = vec!["c.rs".to_string(), "a.rs".to_string(), "new.rs".to_string()];
    let mut stale = stale_paths(&known, &on_disk);
    stale.sort();
    assert_eq!(stale, vec!["b.rs".to_string(), "d.rs".to_string()]);
    let all = vec!["a.rs".to_string(), "b.rs".to_string(), "c.rs".to_string(), "d.rs".to_string()];
    assert!(stale_paths(&known, &all).is_empty());
}

#[test]
fn chunk_text_reads_the_recorded_range() {
    let bytes = "hello world".as_bytes();
    assert_eq!(chunk_text(bytes, &plain_meta("f", 6, 11)), "world");
    assert_eq!(chunk_text(bytes, &plain_meta("f", 6, 12)), "[invalid chunk range]");
    assert_eq!(chunk_text(bytes, &plain_meta("f", 11, 11)), "[invalid chunk range]");
    assert_eq!(chunk_text(bytes, &plain_meta("f", 4, 4)), "[invalid chunk range]");
    assert_eq!(chunk_text(&[0x66, 0xff], &plain_meta("f", 0, 2)), "f\u{fffd}");
}

#[test]
fn text_files_are_prepared_as_paragraphs() {
    let data = "one\n\ntwo".as_bytes();
    let ps = prepare_file_chunks("/p/notes.md", &"notes.md".to_string(), data, 99, 5).unwrap();
    assert_eq!(ps.len(), 2);
    assert_eq!(ps[0].span, (0, 5));
    assert_eq!(ps[1].span, (5, 8));
    assert_eq!(ps[0].id, hash_chunk(b"one\n\n"));
    assert_eq!(ps[1].meta.file_path, "notes.md");
    assert_eq!(ps[1].meta.file_hash, 99);
    assert_eq!(ps[1].meta.updated_at, 5);
    assert_eq!(ps[1].meta.chunk_kind, ChunkKind::Paragraph);
    assert_eq!(ps[1].text.as_deref(), Some("two"));
    assert_eq!(ps[1].search_text.as_deref(), Some("notes.md\ntwo"));
}

#[test]
fn rust_files_are_prepared_along_their_syntax() {
    let data = "pub fn run() {}\n".as_bytes();
    let ps = prepare_file_chunks("/p/src/main.rs", &"src/main.rs".to_string(), data, 7, 1).unwrap();
    assert_eq!(ps.len(), 1);
    assert_eq!(ps[0].span, (0, 15));
    assert_eq!(ps[0].meta.symbol_type, Some(SymbolType::Function));
    assert_eq!(ps[0].meta.file_hash, 7);
    assert_eq!(ps[0].id, hash_chunk(b"pub fn run() {}"));
    assert_eq!(
        ps[0].search_text.as_deref(),
        Some("run\npub fn run()\nsrc/main.rs\npub fn run() {}")
    );
}

#[test]
fn invalid_utf8_chunks_have_no_text() {
    let data = [0x61u8, 0xff, 0x62];
    let ps = prepare_file_chunks("/p/blob.bin", &"blob.bin".to_string(), &data, 0, 0).unwrap();
    assert_eq!(ps.len(), 1);
    assert_eq!(ps[0].text, None);
    assert_eq!(ps[0].search_text, None);
}

#[test]
fn hex_text_is_written_back_in_lower_case() {
    let text = "0123456789ABCDEFabcdef".repeat(3)[..64].to_string();
    let id = ChunkId::from_hex(&text).unwrap();
    assert_eq!(id.to_hex(), text.to_ascii_lowercase());
}
