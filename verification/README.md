# mem_system

A local memory layer for LLMs over a Rust project: files are cut into chunks
(Rust files along their syntax tree, other files into paragraphs of at most
512 characters), each chunk is stored by the BLAKE3 digest of its bytes with
its metadata and embedding, and a query is answered by fusing full-text (BM25)
and vector search and ranking groups of related chunks.

## Layout

- `src/` — the verified library (Verus):
  - `storage/types.rs` — chunk identifiers (hex form) and metadata records;
  - `storage/hash.rs` — content addressing;
  - `storage/sled_store.rs` — the persistent chunk store (sled);
  - `search/bm25.rs` — the full-text index (tantivy);
  - `text.rs` — UTF-8 decoding, trimming, prefixes, joins;
  - `ingest.rs` — paragraph chunking;
  - `code_chunker.rs` — chunking Rust source along its tree-sitter syntax tree;
  - `context_group.rs` — grouping chunks around functions, impls, types and modules;
  - `member_order.rs` — the order in which a group's chunks are shown;
  - `file_hashes.rs` — recorded file hashes and the decisions of an update;
  - `store.rs` — project directories, the active-project record, paths, search
    text and the preparation of a file's chunks.
- `app/` — the command-line program around the library: file-system walking and
  reading, bincode records, embeddings, vector search and score fusion.
- `tests/` — tests of the library.

## Maps kept as lists

Where the program keys a map by a symbol name, a file path or a chunk digest
(the groups of `context_group.rs`, the recorded hashes of `file_hashes.rs`),
the library keeps a `Vec` and scans it: Verus can reason about std's hash maps
only for keys whose hashing it understands, such as integers, and not for
strings or byte arrays. `FileHashes` keeps each path at most once (its type
invariant), so it behaves as the map it stands for.
