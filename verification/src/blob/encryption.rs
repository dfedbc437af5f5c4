//! Authenticated encryption of blobs and of their file metadata: one fresh
//! key per blob, one fresh nonce per seal, and the nonce prepended to the
//! sealed bytes. Metadata is sealed under the same key with its own
//! associated data, so the two kinds of ciphertext never open as each
//! other.
use vstd::prelude::*;
use chacha20poly1305::aead::{Aead, KeyInit, Payload};
use crate::blob::descriptor::{EncryptionAlgorithm, EncryptionDescriptor};
use crate::blob::ids::BlobEncryptionKey;
use crate::random::fill_random;
use vstd::utf8::encode_utf8;
use crate::util::{append_bytes, copy_bytes};

verus! {

/// Length of the nonce prepended to every sealed blob.
pub const NONCE_LEN: usize = 12;

/// Length of the authentication tag the cipher appends.
pub const TAG_LEN: usize = 16;

/// Why a blob could not be sealed or opened.
#[derive(Debug, Clone, Copy, PartialEq, Eq, Structural)]
pub enum EncryptionError {
    EncryptionFailed,
    DecryptionFailed,
    CiphertextTooShort { actual: usize },
}

/// What ChaCha20-Poly1305 under `key` and `nonce` makes of `plaintext`
/// with associated data `aad` (ciphertext followed by the tag).
pub uninterp spec fn spec_chacha20poly1305_seal(key: Seq<u8>, nonce: Seq<u8>, plaintext: Seq<u8>, aad: Seq<u8>) -> Seq<u8>;

/// What ChaCha20-Poly1305 under `key` and `nonce` opens `sealed` to with
/// associated data `aad`, or `None` where the tag does not authenticate
/// both.
pub uninterp spec fn spec_chacha20poly1305_open(key: Seq<u8>, nonce: Seq<u8>, sealed: Seq<u8>, aad: Seq<u8>) -> Option<
    Seq<u8>,
>;

/// Whether the cipher accepts a message of this length (its block counter
/// must not run out).
pub open spec fn cipher_accepts_len(len: nat) -> bool {
    len / 64 < u32::MAX
}

/// Calls `ChaCha20Poly1305::encrypt` with `plaintext` and associated data
/// `aad`. Trusted: it fails exactly when the message would exhaust the
/// block counter; else the result is the named seal, 16 bytes longer than
/// the plaintext, and opening it under the same key, nonce and associated
/// data gives the plaintext back.
#[verifier::external_body]
fn chacha20poly1305_seal(key: &[u8; 32], nonce: &[u8; 12], plaintext: &[u8], aad: &[u8]) -> (r: Option<Vec<u8>>)
    ensures
        r is Some <==> cipher_accepts_len(plaintext@.len()),
        r matches Some(c) ==> c@ == spec_chacha20poly1305_seal(key@, nonce@, plaintext@, aad@),
        r matches Some(c) ==> c@.len() == plaintext@.len() + TAG_LEN,
        r matches Some(c) ==> spec_chacha20poly1305_open(key@, nonce@, c@, aad@) == Some(plaintext@),
{
    let cipher = chacha20poly1305::ChaCha20Poly1305::new(key.into());
    cipher.encrypt(chacha20poly1305::Nonce::from_slice(nonce), Payload { msg: plaintext, aad }).ok()
}

/// Calls `ChaCha20Poly1305::decrypt` with `sealed` and associated data
/// `aad`. Trusted: the result is the named opening.
#[verifier::external_body]
fn chacha20poly1305_open(key: &[u8; 32], nonce: &[u8], sealed: &[u8], aad: &[u8]) -> (r: Option<Vec<u8>>)
    requires
        nonce@.len() == NONCE_LEN,
    ensures
        r matches Some(p) ==> spec_chacha20poly1305_open(key@, nonce@, sealed@, aad@) == Some(p@),
        r is None ==> spec_chacha20poly1305_open(key@, nonce@, sealed@, aad@) is None,
{
    let cipher = chacha20poly1305::ChaCha20Poly1305::new(key.into());
    cipher.decrypt(chacha20poly1305::Nonce::from_slice(nonce), Payload { msg: sealed, aad }).ok()
}

/// The associated data of file content: none.
pub open spec fn content_aad() -> Seq<u8> {
    Seq::empty()
}

/// The associated data that marks file metadata.
pub open spec fn metadata_aad() -> Seq<u8> {
    encode_utf8("comm/file-metadata/v1"@)
}

/// The framed form of a seal with associated data `aad`: nonce, then
/// sealed bytes.
pub open spec fn spec_frame_aad(key: Seq<u8>, nonce: Seq<u8>, plaintext: Seq<u8>, aad: Seq<u8>) -> Seq<u8> {
    nonce + spec_chacha20poly1305_seal(key, nonce, plaintext, aad)
}

/// What opening a framed ciphertext with associated data `aad` gives.
pub open spec fn spec_open_framed(key: Seq<u8>, ciphertext: Seq<u8>, aad: Seq<u8>) -> Result<Seq<u8>, EncryptionError> {
    if ciphertext.len() < NONCE_LEN {
        Err(EncryptionError::CiphertextTooShort { actual: ciphertext.len() as usize })
    } else {
        match spec_chacha20poly1305_open(
            key,
            ciphertext.subrange(0, NONCE_LEN as int),
            ciphertext.subrange(NONCE_LEN as int, ciphertext.len() as int),
            aad,
        ) {
            Some(p) => Ok(p),
            None => Err(EncryptionError::DecryptionFailed),
        }
    }
}

/// The framed form of a content seal: nonce, then sealed bytes.
pub open spec fn spec_frame(key: Seq<u8>, nonce: Seq<u8>, plaintext: Seq<u8>) -> Seq<u8> {
    spec_frame_aad(key, nonce, plaintext, content_aad())
}

/// What opening a framed blob gives.
pub open spec fn spec_decrypt_blob(key: Seq<u8>, ciphertext: Seq<u8>) -> Result<Seq<u8>, EncryptionError> {
    spec_open_framed(key, ciphertext, content_aad())
}

/// What opening framed file metadata gives.
pub open spec fn spec_decrypt_metadata(key: Seq<u8>, ciphertext: Seq<u8>) -> Result<Seq<u8>, EncryptionError> {
    spec_open_framed(key, ciphertext, metadata_aad())
}

/// Seals under `key`, `nonce` and `aad`, and frames with the nonce in
/// front.
fn seal_framed(key: &BlobEncryptionKey, nonce: [u8; 12], plaintext: &[u8], aad: &[u8]) -> (r: Result<
    Vec<u8>,
    EncryptionError,
>)
    ensures
        r is Ok <==> cipher_accepts_len(plaintext@.len()),
        r is Err ==> r == Err::<Vec<u8>, EncryptionError>(EncryptionError::EncryptionFailed),
        r matches Ok(framed) ==> framed@ == spec_frame_aad(key.0@, nonce@, plaintext@, aad@),
        r matches Ok(framed) ==> spec_open_framed(key.0@, framed@, aad@) == Ok::<Seq<u8>, EncryptionError>(
            plaintext@,
        ),
{
    let sealed = match chacha20poly1305_seal(&key.0, &nonce, plaintext, aad) {
        Some(c) => c,
        None => {
            return Err(EncryptionError::EncryptionFailed);
        },
    };
    let mut framed: Vec<u8> = copy_bytes(nonce.as_slice());
    append_bytes(&mut framed, sealed.as_slice());
    proof {
        let f = framed@;
        assert(f.subrange(0, NONCE_LEN as int) =~= nonce@);
        assert(f.subrange(NONCE_LEN as int, f.len() as int) =~= sealed@);
    }
    Ok(framed)
}

/// Splits off the nonce and opens the rest under `aad`.
fn open_framed(key: &BlobEncryptionKey, ciphertext: &[u8], aad: &[u8]) -> (r: Result<Vec<u8>, EncryptionError>)
    ensures
        match r {
            Ok(p) => spec_open_framed(key.0@, ciphertext@, aad@) == Ok::<Seq<u8>, EncryptionError>(p@),
            Err(e) => spec_open_framed(key.0@, ciphertext@, aad@) == Err::<Seq<u8>, EncryptionError>(e),
        },
{
    if ciphertext.len() < NONCE_LEN {
        return Err(EncryptionError::CiphertextTooShort { actual: ciphertext.len() });
    }
    let (nonce, sealed) = ciphertext.split_at(NONCE_LEN);
    match chacha20poly1305_open(&key.0, nonce, sealed, aad) {
        Some(p) => Ok(p),
        None => Err(EncryptionError::DecryptionFailed),
    }
}

/// A fresh random per-blob key.
pub fn generate_blob_key() -> (r: BlobEncryptionKey)
    ensures
        r.0@.len() == 32,
{
    let mut bytes = [0u8; 32];
    fill_random(&mut bytes);
    BlobEncryptionKey(bytes)
}

/// Seals `plaintext` under `key` and the given nonce, and frames it with
/// the nonce in front.
pub fn encrypt_blob_with_nonce(key: &BlobEncryptionKey, nonce: [u8; 12], plaintext: &[u8]) -> (r: Result<
    (Vec<u8>, EncryptionDescriptor),
    EncryptionError,
>)
    ensures
        r is Ok <==> cipher_accepts_len(plaintext@.len()),
        r is Err ==> r == Err::<(Vec<u8>, EncryptionDescriptor), EncryptionError>(EncryptionError::EncryptionFailed),
        r matches Ok((framed, d)) ==> framed@ == spec_frame(key.0@, nonce@, plaintext@)
            && d.algorithm == EncryptionAlgorithm::ChaCha20Poly1305 && d.nonce == nonce,
        r matches Ok((framed, d)) ==> spec_decrypt_blob(key.0@, framed@) == Ok::<Seq<u8>, EncryptionError>(plaintext@),
{
    let no_aad: [u8; 0] = [];
    proof {
        assert(no_aad@ =~= content_aad());
    }
    match seal_framed(key, nonce, plaintext, no_aad.as_slice()) {
        Ok(framed) => Ok((framed, EncryptionDescriptor { algorithm: EncryptionAlgorithm::ChaCha20Poly1305, nonce })),
        Err(e) => Err(e),
    }
}

/// Seals the whole plaintext under one fresh random nonce. The result is
/// self-contained (nonce in front) and comes with a descriptor naming the
/// same nonce.
pub fn encrypt_blob(key: &BlobEncryptionKey, plaintext: &[u8]) -> (r: Result<
    (Vec<u8>, EncryptionDescriptor),
    EncryptionError,
>)
    ensures
        r is Ok <==> cipher_accepts_len(plaintext@.len()),
        r is Err ==> r == Err::<(Vec<u8>, EncryptionDescriptor), EncryptionError>(EncryptionError::EncryptionFailed),
        r matches Ok((framed, d)) ==> framed@ == spec_frame(key.0@, d.nonce@, plaintext@)
            && d.algorithm == EncryptionAlgorithm::ChaCha20Poly1305,
        r matches Ok((framed, d)) ==> spec_decrypt_blob(key.0@, framed@) == Ok::<Seq<u8>, EncryptionError>(plaintext@),
{
    let mut nonce = [0u8; 12];
    fill_random(&mut nonce);
    encrypt_blob_with_nonce(key, nonce, plaintext)
}

/// Opens a framed blob; any change to nonce, ciphertext or tag makes it
/// fail.
pub fn decrypt_blob(key: &BlobEncryptionKey, ciphertext: &[u8]) -> (r: Result<Vec<u8>, EncryptionError>)
    ensures
        match r {
            Ok(p) => spec_decrypt_blob(key.0@, ciphertext@) == Ok::<Seq<u8>, EncryptionError>(p@),
            Err(e) => spec_decrypt_blob(key.0@, ciphertext@) == Err::<Seq<u8>, EncryptionError>(e),
        },
{
    let no_aad: [u8; 0] = [];
    proof {
        assert(no_aad@ =~= content_aad());
    }
    open_framed(key, ciphertext, no_aad.as_slice())
}

/// Seals serialized file metadata under the blob's key and the given nonce,
/// with the metadata's associated data, and frames it with the nonce in
/// front.
pub fn encrypt_file_metadata_with_nonce(key: &BlobEncryptionKey, nonce: [u8; 12], plaintext: &[u8]) -> (r: Result<
    Vec<u8>,
    EncryptionError,
>)
    ensures
        r is Ok <==> cipher_accepts_len(plaintext@.len()),
        r is Err ==> r == Err::<Vec<u8>, EncryptionError>(EncryptionError::EncryptionFailed),
        r matches Ok(framed) ==> framed@ == spec_frame_aad(key.0@, nonce@, plaintext@, metadata_aad()),
        r matches Ok(framed) ==> spec_decrypt_metadata(key.0@, framed@) == Ok::<Seq<u8>, EncryptionError>(
            plaintext@,
        ),
{
    seal_framed(key, nonce, plaintext, "comm/file-metadata/v1".as_bytes())
}

/// Seals serialized file metadata under one fresh random nonce.
pub fn encrypt_file_metadata_bytes(key: &BlobEncryptionKey, plaintext: &[u8]) -> (r: Result<Vec<u8>, EncryptionError>)
    ensures
        r is Ok <==> cipher_accepts_len(plaintext@.len()),
        r is Err ==> r == Err::<Vec<u8>, EncryptionError>(EncryptionError::EncryptionFailed),
        r matches Ok(framed) ==> framed@.len() >= NONCE_LEN && framed@ == spec_frame_aad(
            key.0@,
            framed@.subrange(0, NONCE_LEN as int),
            plaintext@,
            metadata_aad(),
        ),
        r matches Ok(framed) ==> spec_decrypt_metadata(key.0@, framed@) == Ok::<Seq<u8>, EncryptionError>(
            plaintext@,
        ),
{
    let mut nonce = [0u8; 12];
    fill_random(&mut nonce);
    let r = encrypt_file_metadata_with_nonce(key, nonce, plaintext);
    proof {
        if r is Ok {
            assert(r->Ok_0@.subrange(0, NONCE_LEN as int) =~= nonce@);
        }
    }
    r
}

/// Opens framed file metadata. It fails for a wrong key, any change to the
/// bytes, or ciphertext sealed with other associated data (such as a
/// blob's content).
pub fn decrypt_file_metadata_bytes(key: &BlobEncryptionKey, ciphertext: &[u8]) -> (r: Result<
    Vec<u8>,
    EncryptionError,
>)
    ensures
        match r {
            Ok(p) => spec_decrypt_metadata(key.0@, ciphertext@) == Ok::<Seq<u8>, EncryptionError>(p@),
            Err(e) => spec_decrypt_metadata(key.0@, ciphertext@) == Err::<Seq<u8>, EncryptionError>(e),
        },
{
    open_framed(key, ciphertext, "comm/file-metadata/v1".as_bytes())
}

} // verus!
