use mem_system::search::bm25::Bm25Index;
use mem_system::storage::sled_store::{SledStore, StoreError};
use mem_system::storage::types::{ChunkId, ChunkKind, ChunkMeta};

fn meta_for(path: &str) -> ChunkMeta {
    ChunkMeta {
        file_path: path.to_string(),
        file_hash: 1,
        byte_start: 0,
        byte_end: 1,
        chunk_kind: ChunkKind::Paragraph,
        updated_at: 0,
        language: None,
        symbol_type: None,
        symbol_name: Some("needle_symbol".to_string()),
        mod_path: None,
        parent_symbol: None,
        signature: None,
        ast_node_type: None,
        is_public: None,
        has_docs: None,
    }
}

#[test]
fn sled_store_reads_back_what_it_wrote() {
    let mut db = SledStore::open("/tmp/mem_system_store_roundtrip").unwrap();
    let id = ChunkId { hash: [7u8; 32] };
    db.put_meta_bytes(&id, b"meta bytes").unwrap();
    db.put_embedding_bytes(&id, &[1, 2, 3]).unwrap();
    db.set_file_index_bytes("src/lib.rs", b"ids").unwrap();
    db.set_file_fingerprint_bytes("src/lib.rs", b"fp").unwrap();
    assert_eq!(db.get_meta_bytes(&id).unwrap(), Some(b"meta bytes".to_vec()));
    assert_eq!(db.get_embedding_bytes(&id).unwrap(), Some(vec![1, 2, 3]));
    assert_eq!(db.get_file_index_bytes("src/lib.rs").unwrap(), Some(b"ids".to_vec()));
    assert_eq!(db.get_file_fingerprint_bytes("src/lib.rs").unwrap(), Some(b"fp".to_vec()));
    db.remove_meta(&id).unwrap();
    assert_eq!(db.get_meta_bytes(&id).unwrap(), None);
    assert_eq!(db.get_embedding_bytes(&id).unwrap(), Some(vec![1, 2, 3]));
}

#[test]
fn file_hashes_are_kept_per_path() {
    let mut db = SledStore::open("/tmp/mem_system_store_hashes").unwrap();
    db.set_file_hash("a.rs", 42).unwrap();
    db.set_file_hash("b.rs", u64::MAX).unwrap();
    assert_eq!(db.get_file_hash("a.rs").unwrap(), Some(42));
    assert_eq!(db.get_file_hash("b.rs").unwrap(), Some(u64::MAX));
    let all = db.iter_file_hashes().unwrap();
    assert!(all.contains(&("a.rs".to_string(), 42)));
    assert!(all.contains(&("b.rs".to_string(), u64::MAX)));
    db.remove_file_hash("a.rs").unwrap();
    assert_eq!(db.get_file_hash("a.rs").unwrap(), None);
    assert!(!db.iter_file_hashes().unwrap().iter().any(|(p, _)| p == "a.rs"));
    db.set_project_root("/home/me/project").unwrap();
}

#[test]
fn remove_file_chunks_clears_the_file() {
    let mut db = SledStore::open("/tmp/mem_system_store_remove").unwrap();
    let id = ChunkId { hash: [7u8; 32] };
    let other = ChunkId { hash: [8u8; 32] };
    db.put_meta_bytes(&id, b"m").unwrap();
    db.put_embedding_bytes(&id, b"e").unwrap();
    db.put_meta_bytes(&other, b"m2").unwrap();
    db.set_file_index_bytes("src/lib.rs", b"ids").unwrap();
    db.set_file_hash("src/lib.rs", 42).unwrap();
    db.remove_file_chunks("src/lib.rs", &vec![id]).unwrap();
    assert!(db.get_meta_bytes(&id).unwrap().is_none());
    assert!(db.get_embedding_bytes(&id).unwrap().is_none());
    assert!(db.get_file_index_bytes("src/lib.rs").unwrap().is_none());
    assert_eq!(db.get_file_hash("src/lib.rs").unwrap(), None);
    assert_eq!(db.get_meta_bytes(&other).unwrap(), Some(b"m2".to_vec()));
}

#[test]
fn empty_path_hash_reads_back() {
    let mut db = SledStore::open("/tmp/mem_system_store_empty_path").unwrap();
    db.set_file_hash("", 0).unwrap();
    match db.get_file_hash("") {
        Ok(Some(h)) => assert_eq!(h, 0),
        Ok(None) => panic!("hash missing"),
        Err(StoreError::Corrupt) => panic!("hash unreadable"),
        Err(StoreError::Db(e)) => panic!("database error {:?}", e),
    }
}

#[test]
fn bm25_finds_indexed_chunks_and_forgets_removed_files() {
    // The project directory holds the chunk store and the full-text index;
    // opening the store creates the directory.
    let dir = "/tmp/mem_system_bm25_search";
    let _db = SledStore::open("/tmp/mem_system_bm25_search/sled").unwrap();
    let mut ix = Bm25Index::open(dir).unwrap();
    ix.remove_file("src/lib.rs").unwrap();
    ix.commit().unwrap();
    let id = ChunkId { hash: [42u8; 32] };
    let meta = meta_for("src/lib.rs");
    ix.index_chunk(id, &meta, "the quick zebrafish").unwrap();
    ix.commit().unwrap();
    let hits = ix.search("zebrafish", 10).unwrap();
    assert!(hits.contains(&id));
    let by_symbol = ix.search("needle_symbol", 10).unwrap();
    assert!(by_symbol.contains(&id));
    ix.remove_file("src/lib.rs").unwrap();
    ix.commit().unwrap();
    let after = ix.search("zebrafish", 10).unwrap();
    assert!(!after.contains(&id));
}

#[test]
fn opening_stores_in_unusable_places_fails() {
    assert!(matches!(SledStore::open("/dev/null/mem_system_store"), Err(StoreError::Db(_))));
    assert!(Bm25Index::open("/nonexistent/mem_system/bm25").is_err());
}
