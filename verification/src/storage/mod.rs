pub mod hash;
pub mod sled_store;
pub mod types;
