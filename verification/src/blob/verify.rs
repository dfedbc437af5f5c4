//! Chunk-by-chunk and whole-blob verification against a manifest.
use vstd::prelude::*;
use crate::blob::chunking::{chunk_end, chunk_start, lemma_chunk_bounds, spec_chunk};
use crate::blob::ids::{BlobId, ChunkHash};
use crate::blob::manifest::{BlobManifest, ChunkDescriptor, describes_chunk, is_manifest_of};
use crate::digest::spec_blake3;
use crate::util::bytes_equal;

verus! {

/// `bytes` has the descriptor's length and hash.
pub open spec fn spec_verify_chunk(bytes: Seq<u8>, descriptor: ChunkDescriptor) -> bool {
    &&& bytes.len() as u32 == descriptor.size
    &&& spec_blake3(bytes) == descriptor.hash@
}

/// The descriptor's byte range lies inside `ciphertext` and those bytes
/// verify against it.
pub open spec fn chunk_in_blob(ciphertext: Seq<u8>, c: ChunkDescriptor) -> bool {
    &&& c.offset + c.size <= ciphertext.len()
    &&& spec_verify_chunk(ciphertext.subrange(c.offset as int, c.offset + c.size), c)
}

/// A whole blob verifies: its length, its identity, and every chunk.
pub open spec fn spec_verify_blob(ciphertext: Seq<u8>, m: BlobManifest) -> bool {
    &&& ciphertext.len() == m.total_size
    &&& spec_blake3(ciphertext) == m.blob_id@
    &&& forall|i: int| 0 <= i < m.chunks@.len() ==> chunk_in_blob(ciphertext, #[trigger] m.chunks@[i])
}

/// Recomputes the chunk's hash and compares it, with its length, to the
/// descriptor.
pub fn verify_chunk(chunk_bytes: &[u8], descriptor: &ChunkDescriptor) -> (r: bool)
    ensures
        r == spec_verify_chunk(chunk_bytes@, *descriptor),
{
    if chunk_bytes.len() as u32 != descriptor.size {
        return false;
    }
    let hash = ChunkHash::from_ciphertext_chunk(chunk_bytes);
    bytes_equal(hash.as_bytes().as_slice(), descriptor.hash.as_bytes().as_slice())
}

/// Verifies an assembled ciphertext against a manifest: every chunk, and
/// the blob's own identity, so a forged `blob_id` is caught even where
/// every chunk hash matches.
pub fn verify_complete_blob(ciphertext: &[u8], manifest: &BlobManifest) -> (r: bool)
    ensures
        r == spec_verify_blob(ciphertext@, *manifest),
{
    if ciphertext.len() as u64 != manifest.total_size {
        return false;
    }
    let id = BlobId::from_ciphertext(ciphertext);
    if !bytes_equal(id.as_bytes().as_slice(), manifest.blob_id.as_bytes().as_slice()) {
        return false;
    }
    let n = manifest.chunks.len();
    let mut i: usize = 0;
    while i < n
        invariant
            n == manifest.chunks@.len(),
            i <= n,
            forall|k: int| 0 <= k < i ==> chunk_in_blob(ciphertext@, #[trigger] manifest.chunks@[k]),
        decreases n - i,
    {
        let c = &manifest.chunks[i];
        let start = c.offset;
        let len = ciphertext.len() as u64;
        if start > len || (c.size as u64) > len - start {
            return false;
        }
        let piece = &ciphertext[start as usize..(start + c.size as u64) as usize];
        if !verify_chunk(piece, c) {
            return false;
        }
        i += 1;
    }
    true
}

/// A manifest built from a ciphertext verifies against that ciphertext
/// (with a zero chunk size, as long as the single chunk's length fits the
/// `u32` size field).
pub proof fn lemma_built_manifest_verifies(ciphertext: Seq<u8>, chunk_size: u32, m: BlobManifest)
    requires
        is_manifest_of(m, ciphertext, chunk_size),
        chunk_size > 0 || ciphertext.len() <= u32::MAX,
    ensures
        spec_verify_blob(ciphertext, m),
{
    let sz = chunk_size as nat;
    assert forall|i: int| 0 <= i < m.chunks@.len() implies chunk_in_blob(ciphertext, #[trigger] m.chunks@[i]) by {
        let c = m.chunks@[i];
        assert(describes_chunk(ciphertext, chunk_size, i, c));
        lemma_chunk_bounds(ciphertext.len(), sz, i);
        let s = chunk_start(i, sz);
        let e = chunk_end(i, ciphertext.len(), sz);
        if sz > 0 {
            assert(e - s <= u32::MAX);
            assert(c.size == e - s);
        } else {
            assert(s == 0) by (nonlinear_arith)
                requires
                    s == i * sz,
                    sz == 0,
            ;
            assert(c.size == e - s);
        }
        assert(c.offset + c.size == e);
        assert(ciphertext.subrange(c.offset as int, c.offset + c.size) == spec_chunk(ciphertext, sz, i));
    }
}

} // verus!
