use mem_system::member_order::shown_order;
use mem_system::storage::types::{ChunkId, ChunkKind, ChunkMeta};

fn at(path: &str, start: u64) -> ChunkMeta {
    ChunkMeta {
        file_path: path.to_string(),
        file_hash: 0,
        byte_start: start,
        byte_end: start + 1,
        chunk_kind: ChunkKind::AstNode,
        updated_at: 0,
        language: None,
        symbol_type: None,
        symbol_name: None,
        mod_path: None,
        parent_symbol: None,
        signature: None,
        ast_node_type: None,
        is_public: None,
        has_docs: None,
    }
}

fn id(b: u8) -> ChunkId {
    ChunkId { hash: [b; 32] }
}

#[test]
fn members_are_shown_by_file_then_position() {
    let known = vec![
        (id(1), at("src/b.rs", 0)),
        (id(2), at("src/a.rs", 40)),
        (id(3), at("src/a.rs", 5)),
        (id(4), at("src/a.rs", 5)),
    ];
    let members = vec![id(1), id(2), id(3), id(4)];
    assert_eq!(shown_order(&members, &known), vec![2, 3, 1, 0]);
}

#[test]
fn unknown_members_are_skipped_and_repeats_shown_once() {
    let known = vec![(id(1), at("x.rs", 3)), (id(2), at("x.rs", 1))];
    let members = vec![id(1), id(9), id(2), id(1), id(2)];
    assert_eq!(shown_order(&members, &known), vec![1, 0]);
    assert!(shown_order(&vec![id(9)], &known).is_empty());
}

#[test]
fn first_known_entry_of_an_identifier_counts() {
    let known = vec![(id(5), at("late.rs", 0)), (id(5), at("early.rs", 0))];
    assert_eq!(shown_order(&vec![id(5)], &known), vec![0]);
}

#[test]
fn paths_compare_as_strings() {
    let known = vec![(id(1), at("src/main.rs", 0)), (id(2), at("src", 9)), (id(3), at("Z.rs", 0))];
    let members = vec![id(1), id(2), id(3)];
    assert_eq!(shown_order(&members, &known), vec![2, 1, 0]);
}
