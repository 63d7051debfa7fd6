//! Content addressing of chunks.
use crate::storage::types::ChunkId;
use vstd::prelude::*;

verus! {

/// The BLAKE3 digest of a byte sequence (32 bytes).
pub uninterp spec fn blake3_digest(data: Seq<u8>) -> Seq<u8>;

/// `blake3::hash`, as raw bytes (`Hash::as_bytes`). Claims only that the
/// digest is a function of the input bytes, named `blake3_digest`.
#[verifier::external_body]
fn blake3_hash(data: &[u8]) -> (digest: [u8; 32])
    ensures
        digest@ == blake3_digest(data@),
{
    *blake3::hash(data).as_bytes()
}

/// The identifier of a chunk: the BLAKE3 digest of its bytes.
pub fn hash_chunk(bytes: &[u8]) -> (id: ChunkId)
    ensures
        id.hash@ == blake3_digest(bytes@),
{
    ChunkId { hash: blake3_hash(bytes) }
}

} // verus!
