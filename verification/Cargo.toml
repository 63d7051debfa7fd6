[package]
name = "mem_system"
version = "0.1.0"
edition = "2021"
publish = false

[dependencies]
anyhow = "1"
bincode = "1.3.3"
blake3 = "1"
clap = { version = "4", features = ["derive"] }
hnsw_rs = "0.3"
indicatif = "0.17"
memmap2 = "0.9"
serde = { version = "1", features = ["derive"] }
serde_json = "1"
sled = "0.34"
tantivy = "0.22"
tree-sitter = "0.24"
tree-sitter-rust = "0.23"
walkdir = "2"
