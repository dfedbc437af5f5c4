use siar::blob::encryption::{
    decrypt_blob, decrypt_file_metadata_bytes, encrypt_blob, encrypt_blob_with_nonce, encrypt_file_metadata_bytes,
    encrypt_file_metadata_with_nonce, generate_blob_key, EncryptionError,
};
use siar::blob::ids::BlobEncryptionKey;
use siar::blob::limits::ManifestLimits;
use siar::blob::manifest::build_manifest;
use siar::blob::verify::verify_complete_blob;

#[test]
fn encryption_round_trips() {
    let key = generate_blob_key();
    let plaintext = b"a whole file's worth of bytes, pretend";
    let (ciphertext, _descriptor) = encrypt_blob(&key, plaintext).unwrap();
    let recovered = decrypt_blob(&key, &ciphertext).unwrap();
    assert_eq!(recovered, plaintext);
}

#[test]
fn same_plaintext_twice_yields_different_ciphertext() {
    let key = generate_blob_key();
    let plaintext = b"identical content";
    let (a, _) = encrypt_blob(&key, plaintext).unwrap();
    let (b, _) = encrypt_blob(&key, plaintext).unwrap();
    assert_ne!(a, b);
}

#[test]
fn two_generated_keys_are_never_the_same() {
    let a = generate_blob_key();
    let b = generate_blob_key();
    assert_ne!(a.0, b.0);
}

#[test]
fn encryption_wrong_key_fails_decryption() {
    let key = generate_blob_key();
    let wrong_key = generate_blob_key();
    let (ciphertext, _) = encrypt_blob(&key, b"data").unwrap();
    assert!(decrypt_blob(&wrong_key, &ciphertext).is_err());
}

#[test]
fn tampered_ciphertext_fails_decryption() {
    let key = generate_blob_key();
    let (mut ciphertext, _) = encrypt_blob(&key, b"data").unwrap();
    let last = ciphertext.len() - 1;
    ciphertext[last] ^= 0xFF;
    assert!(decrypt_blob(&key, &ciphertext).is_err());
}

#[test]
fn a_tampered_nonce_also_fails_decryption() {
    let key = generate_blob_key();
    let (mut ciphertext, _) = encrypt_blob(&key, b"data").unwrap();
    ciphertext[0] ^= 0xFF;
    assert!(decrypt_blob(&key, &ciphertext).is_err());
}

#[test]
fn a_ciphertext_shorter_than_one_nonce_is_rejected_cleanly() {
    let key = generate_blob_key();
    let result = decrypt_blob(&key, &[0u8; 5]);
    assert_eq!(result, Err(EncryptionError::CiphertextTooShort { actual: 5 }));
}

#[test]
fn a_full_pipeline_encrypts_chunks_and_verifies() {
    let key = generate_blob_key();
    let plaintext = vec![42u8; 10_000];

    let (ciphertext, _descriptor) = encrypt_blob(&key, &plaintext).unwrap();
    let manifest = build_manifest(&ciphertext, 1024, &ManifestLimits::default()).unwrap();
    assert!(verify_complete_blob(&ciphertext, &manifest));

    let recovered = decrypt_blob(&key, &ciphertext).unwrap();
    assert_eq!(recovered, plaintext);
}

#[test]
fn a_fixed_nonce_frames_the_nonce_in_front_and_adds_a_tag() {
    let key = BlobEncryptionKey([7u8; 32]);
    let nonce = [3u8; 12];
    let (framed, descriptor) = encrypt_blob_with_nonce(&key, nonce, b"hello").unwrap();
    assert_eq!(&framed[..12], &nonce);
    assert_eq!(framed.len(), 12 + 5 + 16);
    assert_ne!(&framed[12..17], b"hello");
    assert_eq!(descriptor.nonce, nonce);
    let again = encrypt_blob_with_nonce(&key, nonce, b"hello").unwrap().0;
    assert_eq!(framed, again);
    assert_eq!(decrypt_blob(&key, &framed).unwrap(), b"hello");
}

#[test]
fn an_empty_framed_payload_after_the_nonce_fails_decryption() {
    let key = BlobEncryptionKey([1u8; 32]);
    assert_eq!(decrypt_blob(&key, &[0u8; 12]), Err(EncryptionError::DecryptionFailed));
}

type SampleMetadata = (Option<String>, u64, Option<u64>);

fn sample_metadata() -> SampleMetadata {
    (Some("vacation-photo.jpg".to_string()), 4_096, Some(1_700_000_000_000))
}

fn sample_metadata_bytes() -> Vec<u8> {
    postcard::to_allocvec(&sample_metadata()).unwrap()
}

#[test]
fn metadata_encryption_round_trips() {
    let key = generate_blob_key();
    let metadata = sample_metadata();
    let ciphertext = encrypt_file_metadata_bytes(&key, &sample_metadata_bytes()).unwrap();
    let plaintext = decrypt_file_metadata_bytes(&key, &ciphertext).unwrap();
    let recovered: SampleMetadata = postcard::from_bytes(&plaintext).unwrap();
    assert_eq!(recovered, metadata);
}

#[test]
fn metadata_encryption_wrong_key_fails_decryption() {
    let key = generate_blob_key();
    let wrong_key = generate_blob_key();
    let ciphertext = encrypt_file_metadata_bytes(&key, &sample_metadata_bytes()).unwrap();
    assert!(decrypt_file_metadata_bytes(&wrong_key, &ciphertext).is_err());
}

#[test]
fn a_content_ciphertext_under_the_same_key_does_not_decrypt_as_metadata() {
    let key = generate_blob_key();
    let (content_ciphertext, _descriptor) = encrypt_blob(&key, b"file bytes").unwrap();
    assert!(decrypt_file_metadata_bytes(&key, &content_ciphertext).is_err());
}

#[test]
fn tampered_metadata_ciphertext_fails_decryption() {
    let key = generate_blob_key();
    let mut ciphertext = encrypt_file_metadata_bytes(&key, &sample_metadata_bytes()).unwrap();
    let last = ciphertext.len() - 1;
    ciphertext[last] ^= 0xFF;
    assert!(decrypt_file_metadata_bytes(&key, &ciphertext).is_err());
}

#[test]
fn a_metadata_ciphertext_does_not_decrypt_as_content() {
    let key = BlobEncryptionKey([9u8; 32]);
    let ciphertext = encrypt_file_metadata_with_nonce(&key, [4u8; 12], b"name").unwrap();
    assert_eq!(decrypt_blob(&key, &ciphertext), Err(EncryptionError::DecryptionFailed));
    assert_eq!(decrypt_file_metadata_bytes(&key, &ciphertext).unwrap(), b"name");
}

#[test]
fn a_fixed_metadata_nonce_differs_from_the_content_seal_only_in_the_tag() {
    let key = BlobEncryptionKey([5u8; 32]);
    let nonce = [8u8; 12];
    let metadata = encrypt_file_metadata_with_nonce(&key, nonce, b"abc").unwrap();
    let (content, _) = encrypt_blob_with_nonce(&key, nonce, b"abc").unwrap();
    assert_eq!(metadata.len(), 12 + 3 + 16);
    assert_eq!(&metadata[..12], &nonce);
    assert_eq!(&metadata[..15], &content[..15]);
    assert_ne!(&metadata[15..], &content[15..]);
    assert_ne!(&metadata[12..15], b"abc");
}

#[test]
fn a_short_metadata_ciphertext_is_rejected_with_its_length() {
    let key = generate_blob_key();
    assert_eq!(decrypt_file_metadata_bytes(&key, &[1u8; 11]), Err(EncryptionError::CiphertextTooShort { actual: 11 }));
}
