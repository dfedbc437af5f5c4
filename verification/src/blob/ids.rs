//! Blob identities: content hashes of ciphertext for blobs and chunks,
//! random UUIDs for logical attachments and manifests, and the per-blob
//! key's shape.
use vstd::prelude::*;
use crate::digest::{blake3_digest, spec_blake3};
use crate::random::{is_uuid_v4, random_uuid_v4};

verus! {

/// A blob's identity: the BLAKE3 hash of its whole ciphertext. Content
/// addressing happens after encryption, and this is the only constructor.
#[derive(Debug, Clone, Copy, PartialEq, Eq, Hash)]
pub struct BlobId([u8; 32]);

impl View for BlobId {
    type V = Seq<u8>;

    closed spec fn view(&self) -> Seq<u8> {
        self.0@
    }
}

impl BlobId {
    pub fn from_ciphertext(ciphertext: &[u8]) -> (r: Self)
        ensures
            r@ == spec_blake3(ciphertext@),
    {
        BlobId(blake3_digest(ciphertext))
    }

    pub fn as_bytes(&self) -> (r: &[u8; 32])
        ensures
            r@ == self@,
    {
        &self.0
    }
}

/// A chunk's identity: the BLAKE3 hash of that chunk's ciphertext, so a
/// chunk can be checked before the whole blob has arrived.
#[derive(Debug, Clone, Copy, PartialEq, Eq, Hash)]
pub struct ChunkHash([u8; 32]);

impl View for ChunkHash {
    type V = Seq<u8>;

    closed spec fn view(&self) -> Seq<u8> {
        self.0@
    }
}

impl ChunkHash {
    pub fn from_ciphertext_chunk(chunk: &[u8]) -> (r: Self)
        ensures
            r@ == spec_blake3(chunk@),
    {
        ChunkHash(blake3_digest(chunk))
    }

    pub fn as_bytes(&self) -> (r: &[u8; 32])
        ensures
            r@ == self@,
    {
        &self.0
    }
}

/// The application-facing handle of one attached file: a random UUID,
/// generated once when the file is attached.
#[derive(Debug, Clone, Copy, PartialEq, Eq, Hash)]
pub struct LogicalAttachmentId([u8; 16]);

impl View for LogicalAttachmentId {
    type V = Seq<u8>;

    closed spec fn view(&self) -> Seq<u8> {
        self.0@
    }
}

impl LogicalAttachmentId {
    pub fn new() -> (r: Self)
        ensures
            is_uuid_v4(r@),
    {
        LogicalAttachmentId(random_uuid_v4())
    }

    /// The id with the given UUID bytes.
    pub fn from_bytes(bytes: [u8; 16]) -> (r: Self)
        ensures
            r@ == bytes@,
    {
        LogicalAttachmentId(bytes)
    }

    pub fn as_bytes(&self) -> (r: &[u8; 16])
        ensures
            r@ == self@,
    {
        &self.0
    }
}

impl Default for LogicalAttachmentId {
    fn default() -> (r: Self)
        ensures
            is_uuid_v4(r@),
    {
        LogicalAttachmentId::new()
    }
}

/// A manifest's identity: a random UUID.
#[derive(Debug, Clone, Copy, PartialEq, Eq, Hash)]
pub struct ManifestId([u8; 16]);

impl View for ManifestId {
    type V = Seq<u8>;

    closed spec fn view(&self) -> Seq<u8> {
        self.0@
    }
}

impl ManifestId {
    pub fn new() -> (r: Self)
        ensures
            is_uuid_v4(r@),
    {
        ManifestId(random_uuid_v4())
    }

    /// The id with the given UUID bytes.
    pub fn from_bytes(bytes: [u8; 16]) -> (r: Self)
        ensures
            r@ == bytes@,
    {
        ManifestId(bytes)
    }

    pub fn as_bytes(&self) -> (r: &[u8; 16])
        ensures
            r@ == self@,
    {
        &self.0
    }
}

impl Default for ManifestId {
    fn default() -> (r: Self)
        ensures
            is_uuid_v4(r@),
    {
        ManifestId::new()
    }
}

/// A per-blob symmetric key. It has no `Debug`, so key material is never
/// printed.
#[derive(Clone, Copy, PartialEq, Eq)]
pub struct BlobEncryptionKey(pub [u8; 32]);

} // verus!
