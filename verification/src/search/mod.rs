pub mod bm25;
