//! Blob manifests: per-chunk offsets, sizes and content hashes, the whole
//! blob's identity, and the limits enforced when one is built.
use vstd::prelude::*;
use crate::blob::chunking::{chunk_count, chunk_end, chunk_fixed_size, chunk_start, lemma_chunk_bounds, spec_chunk};
use crate::blob::ids::{BlobId, ChunkHash};
use crate::blob::limits::ManifestLimits;
use crate::digest::spec_blake3;

verus! {

/// One chunk's entry in a manifest.
#[derive(Debug, Clone, Copy, PartialEq, Eq)]
pub struct ChunkDescriptor {
    pub index: u32,
    pub offset: u64,
    pub size: u32,
    pub hash: ChunkHash,
}

/// A blob's manifest.
#[derive(Debug, Clone, PartialEq)]
pub struct BlobManifest {
    pub version: u16,
    pub blob_id: BlobId,
    pub total_size: u64,
    pub chunk_size: u32,
    pub chunks: Vec<ChunkDescriptor>,
}

/// Why a manifest was refused.
#[allow(inconsistent_fields)]
#[derive(Debug, Clone, PartialEq, Eq, Structural)]
pub enum ManifestError {
    TooManyChunks { actual: usize, max: u32 },
    ManifestTooLarge { actual: u64, max: u64 },
    FileTooLarge { actual: u64, max: u64 },
}

/// A per-descriptor wire-size estimate (20 bytes of fields, rounded up for
/// framing), used to enforce the manifest byte limit before building it.
pub const ESTIMATED_BYTES_PER_CHUNK_DESCRIPTOR: u64 = 32;

/// The limit a manifest of `len` ciphertext bytes in chunks of
/// `chunk_size` breaks first, checked in order: file size, chunk count,
/// estimated manifest size.
pub open spec fn manifest_error(len: nat, chunk_size: u32, limits: ManifestLimits) -> Option<ManifestError> {
    let n = chunk_count(len, chunk_size as nat);
    if len > limits.max_file_bytes {
        Some(ManifestError::FileTooLarge { actual: len as u64, max: limits.max_file_bytes })
    } else if n > limits.max_chunks {
        Some(ManifestError::TooManyChunks { actual: n as usize, max: limits.max_chunks })
    } else if n * ESTIMATED_BYTES_PER_CHUNK_DESCRIPTOR > limits.max_manifest_bytes {
        Some(
            ManifestError::ManifestTooLarge {
                actual: (n * ESTIMATED_BYTES_PER_CHUNK_DESCRIPTOR) as u64,
                max: limits.max_manifest_bytes,
            },
        )
    } else {
        None
    }
}

/// Entry `i` of the manifest of `ciphertext`: its index, where the chunk
/// starts, its length, and the hash of its bytes.
pub open spec fn describes_chunk(ciphertext: Seq<u8>, chunk_size: u32, i: int, c: ChunkDescriptor) -> bool {
    let chunk = spec_chunk(ciphertext, chunk_size as nat, i);
    &&& c.index == i
    &&& c.offset == chunk_start(i, chunk_size as nat)
    &&& c.size == chunk.len() as u32
    &&& c.hash@ == spec_blake3(chunk)
}

/// `m` is the manifest of `ciphertext` chunked by `chunk_size`.
pub open spec fn is_manifest_of(m: BlobManifest, ciphertext: Seq<u8>, chunk_size: u32) -> bool {
    &&& m.version == 1
    &&& m.blob_id@ == spec_blake3(ciphertext)
    &&& m.total_size == ciphertext.len()
    &&& m.chunk_size == chunk_size
    &&& m.chunks@.len() == chunk_count(ciphertext.len(), chunk_size as nat)
    &&& forall|i: int| 0 <= i < m.chunks@.len() ==> describes_chunk(ciphertext, chunk_size, i, #[trigger] m.chunks@[i])
}

/// Content-addresses each chunk of the (already encrypted) `ciphertext`
/// and the whole blob, after checking `limits`: no manifest that breaks
/// them is returned.
pub fn build_manifest(ciphertext: &[u8], chunk_size: u32, limits: &ManifestLimits) -> (r: Result<
    BlobManifest,
    ManifestError,
>)
    ensures
        match r {
            Ok(m) => manifest_error(ciphertext@.len(), chunk_size, *limits) is None && is_manifest_of(
                m,
                ciphertext@,
                chunk_size,
            ),
            Err(e) => manifest_error(ciphertext@.len(), chunk_size, *limits) == Some(e),
        },
        r matches Ok(m) ==> m.total_size <= limits.max_file_bytes && m.chunks@.len() <= limits.max_chunks
            && m.chunks@.len() * ESTIMATED_BYTES_PER_CHUNK_DESCRIPTOR <= limits.max_manifest_bytes,
{
    let total_size = ciphertext.len() as u64;
    if total_size > limits.max_file_bytes {
        return Err(ManifestError::FileTooLarge { actual: total_size, max: limits.max_file_bytes });
    }
    let raw_chunks = chunk_fixed_size(ciphertext, chunk_size);
    let n = raw_chunks.len();
    if n > limits.max_chunks as usize {
        return Err(ManifestError::TooManyChunks { actual: n, max: limits.max_chunks });
    }
    let estimated = n as u64 * ESTIMATED_BYTES_PER_CHUNK_DESCRIPTOR;
    if estimated > limits.max_manifest_bytes {
        return Err(ManifestError::ManifestTooLarge { actual: estimated, max: limits.max_manifest_bytes });
    }
    let ghost ct = ciphertext@;
    let ghost sz = chunk_size as nat;
    let mut chunks: Vec<ChunkDescriptor> = Vec::with_capacity(n);
    let mut offset: u64 = 0;
    let mut index: usize = 0;
    while index < n
        invariant
            n == raw_chunks@.len(),
            n == chunk_count(ct.len(), sz),
            n <= limits.max_chunks,
            ct == ciphertext@,
            total_size == ct.len(),
            sz == chunk_size as nat,
            forall|i: int| 0 <= i < n ==> (#[trigger] raw_chunks@[i])@ == spec_chunk(ct, sz, i),
            index <= n,
            chunks@.len() == index,
            index < n ==> offset == chunk_start(index as int, sz),
            forall|i: int| 0 <= i < index ==> describes_chunk(ct, chunk_size, i, #[trigger] chunks@[i]),
        decreases n - index,
    {
        let chunk: &[u8] = raw_chunks[index];
        proof {
            lemma_chunk_bounds(ct.len(), sz, index as int);
            assert(chunk@ == spec_chunk(ct, sz, index as int));
            if index + 1 < n {
                lemma_chunk_bounds(ct.len(), sz, index + 1);
                assert((index + 1) * sz == index * sz + sz) by (nonlinear_arith);
                assert(chunk_end(index as int, ct.len(), sz) == chunk_start(index + 1, sz));
                assert(offset + chunk@.len() == chunk_start(index + 1, sz));
            }
        }
        let descriptor = ChunkDescriptor {
            index: index as u32,
            offset,
            size: chunk.len() as u32,
            hash: ChunkHash::from_ciphertext_chunk(chunk),
        };
        chunks.push(descriptor);
        if index + 1 < n {
            offset = offset + chunk.len() as u64;
        }
        index += 1;
    }
    let blob_id = BlobId::from_ciphertext(ciphertext);
    Ok(BlobManifest { version: 1, blob_id, total_size, chunk_size, chunks })
}

/// The same ciphertext always gets the same blob identity, whatever it
/// is chunked by.
pub proof fn lemma_blob_id_is_content_addressed(
    m1: BlobManifest,
    m2: BlobManifest,
    ciphertext: Seq<u8>,
    size1: u32,
    size2: u32,
)
    requires
        is_manifest_of(m1, ciphertext, size1),
        is_manifest_of(m2, ciphertext, size2),
    ensures
        m1.blob_id@ == m2.blob_id@,
{
}

} // verus!
