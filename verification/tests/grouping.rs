use mem_system::context_group::{build_groups, member_ids, primary_id, full_module_path, ContextGroup};
use mem_system::storage::types::{ChunkId, ChunkKind, ChunkMeta, SymbolType};

fn meta(symbol_type: Option<SymbolType>, name: Option<&str>) -> ChunkMeta {
    ChunkMeta {
        file_path: "src/lib.rs".to_string(),
        file_hash: 0,
        byte_start: 0,
        byte_end: 1,
        chunk_kind: ChunkKind::AstNode,
        updated_at: 0,
        language: Some("rust".to_string()),
        symbol_type,
        symbol_name: name.map(|s| s.to_string()),
        mod_path: None,
        parent_symbol: None,
        signature: None,
        ast_node_type: Some("function_item".to_string()),
        is_public: Some(true),
        has_docs: Some(false),
    }
}

#[test]
fn groups_function_with_docs() {
    let f_id = ChunkId { hash: [1u8; 32] };
    let d_id = ChunkId { hash: [2u8; 32] };
    let f_meta = meta(Some(SymbolType::Function), Some("foo"));
    let mut d_meta = meta(None, Some("foo"));
    d_meta.chunk_kind = ChunkKind::DocComment;
    d_meta.ast_node_type = Some("doc_comment".to_string());
    let groups = build_groups(&[(f_id, f_meta), (d_id, d_meta)]);
    assert_eq!(groups.groups.len(), 1);
    assert!(matches!(groups.groups[0], ContextGroup::Function { .. }));
}

#[test]
fn groups_loose_for_ungrouped_chunk() {
    let id = ChunkId { hash: [9u8; 32] };
    let meta = meta(None, None);
    let groups = build_groups(&[(id, meta)]);
    assert_eq!(groups.groups.len(), 1);
    assert!(matches!(groups.groups[0], ContextGroup::Loose { .. }));
}

#[test]
fn struct_group_collects_impls_and_docs() {
    let s_id = ChunkId { hash: [3u8; 32] };
    let i_id = ChunkId { hash: [4u8; 32] };
    let d_id = ChunkId { hash: [5u8; 32] };
    let c_id = ChunkId { hash: [6u8; 32] };
    let s_meta = meta(Some(SymbolType::Struct), Some("Point"));
    let i_meta = meta(Some(SymbolType::Impl), Some("Point"));
    let mut d_meta = meta(None, Some("Point"));
    d_meta.chunk_kind = ChunkKind::DocComment;
    let c_meta = meta(Some(SymbolType::Const), Some("LIMIT"));
    let groups = build_groups(&[(s_id, s_meta), (i_id, i_meta), (d_id, d_meta), (c_id, c_meta)]);
    // The struct group, the impl group (the impl also heads a group of its own),
    // and a loose group for the constant.
    assert_eq!(groups.groups.len(), 3);
    match &groups.groups[0] {
        ContextGroup::Struct { declaration, fields, impls, docs } => {
            assert_eq!(*declaration, s_id);
            assert!(fields.is_empty());
            assert_eq!(impls, &vec![i_id]);
            assert_eq!(*docs, Some(d_id));
        }
        other => panic!("unexpected group {:?}", other),
    }
    match &groups.groups[1] {
        ContextGroup::Impl { declaration, methods, docs } => {
            assert_eq!(*declaration, i_id);
            assert!(methods.is_empty());
            assert_eq!(*docs, Some(d_id));
        }
        other => panic!("unexpected group {:?}", other),
    }
    assert!(matches!(groups.groups[2], ContextGroup::Loose { chunk } if chunk == c_id));
}

#[test]
fn impl_group_takes_methods_of_its_target() {
    let i_id = ChunkId { hash: [10u8; 32] };
    let m_id = ChunkId { hash: [11u8; 32] };
    let i_meta = meta(Some(SymbolType::Impl), Some("Store"));
    let mut m_meta = meta(Some(SymbolType::ImplMethod), Some("open"));
    m_meta.parent_symbol = Some("Store".to_string());
    let groups = build_groups(&[(i_id, i_meta), (m_id, m_meta)]);
    assert_eq!(groups.groups.len(), 1);
    assert_eq!(member_ids(&groups.groups[0]), vec![i_id, m_id]);
    assert_eq!(primary_id(&groups.groups[0]), i_id);
}

#[test]
fn module_group_takes_items_of_its_full_path() {
    let m_id = ChunkId { hash: [12u8; 32] };
    let f_id = ChunkId { hash: [13u8; 32] };
    let mut m_meta = meta(Some(SymbolType::Module), Some("inner"));
    m_meta.mod_path = Some("outer".to_string());
    let mut f_meta = meta(None, Some("helper"));
    f_meta.mod_path = Some("outer::inner".to_string());
    assert_eq!(full_module_path(&m_meta), Some("outer::inner".to_string()));
    let groups = build_groups(&[(m_id, m_meta), (f_id, f_meta)]);
    assert_eq!(groups.groups.len(), 1);
    assert_eq!(member_ids(&groups.groups[0]), vec![m_id, f_id]);
}

#[test]
fn full_module_path_without_parent_is_the_name() {
    let m = meta(Some(SymbolType::Module), Some("top"));
    assert_eq!(full_module_path(&m), Some("top".to_string()));
    let unnamed = meta(Some(SymbolType::Module), None);
    assert_eq!(full_module_path(&unnamed), None);
}

#[test]
fn every_chunk_lands_in_a_group() {
    let ids: Vec<ChunkId> = (0u8..5).map(|b| ChunkId { hash: [b + 20; 32] }).collect();
    let chunks: Vec<(ChunkId, ChunkMeta)> = vec![
        (ids[0], meta(Some(SymbolType::Function), Some("a"))),
        (ids[1], meta(Some(SymbolType::TypeAlias), Some("T"))),
        (ids[2], meta(Some(SymbolType::Enum), Some("E"))),
        (ids[3], meta(Some(SymbolType::Trait), Some("Tr"))),
        (ids[4], meta(Some(SymbolType::Static), Some("S"))),
    ];
    let groups = build_groups(&chunks);
    for id in &ids {
        assert!(groups.groups.iter().any(|g| member_ids(g).contains(id)));
    }
    for g in &groups.groups {
        assert_eq!(member_ids(g)[0], primary_id(g));
    }
}
