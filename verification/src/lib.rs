pub mod code_chunker;
pub mod context_group;
pub mod file_hashes;
pub mod ingest;
pub mod member_order;
pub mod search;
pub mod storage;
pub mod store;
pub mod text;
