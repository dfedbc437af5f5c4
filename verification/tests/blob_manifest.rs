use siar::blob::chunking::{chunk_fixed_size, ChunkSizeClass};
use siar::blob::ids::{BlobId, ChunkHash};
use siar::blob::limits::ManifestLimits;
use siar::blob::manifest::{build_manifest, ManifestError};
use siar::blob::resume::ResumeBitmap;
use siar::blob::transfer_state::{InvalidTransition, TransferEvent, TransferState};
use siar::blob::verify::{verify_chunk, verify_complete_blob};

#[test]
fn a_small_file_becomes_one_chunk() {
    let data = vec![0u8; 100];
    assert_eq!(ChunkSizeClass::for_file_size(100).default_chunk_size(100), 100);
    let chunks = chunk_fixed_size(&data, 100);
    assert_eq!(chunks.len(), 1);
}

#[test]
fn fixed_chunking_splits_evenly_with_a_short_last_chunk() {
    let data = vec![0u8; 250];
    let chunks = chunk_fixed_size(&data, 100);
    assert_eq!(chunks.len(), 3);
    assert_eq!(chunks[0].len(), 100);
    assert_eq!(chunks[1].len(), 100);
    assert_eq!(chunks[2].len(), 50);
}

#[test]
fn size_classification_matches_spec_examples() {
    assert_eq!(ChunkSizeClass::for_file_size(500_000), ChunkSizeClass::Small);
    assert_eq!(ChunkSizeClass::for_file_size(4_000_000), ChunkSizeClass::Medium);
    assert_eq!(ChunkSizeClass::for_file_size(50_000_000), ChunkSizeClass::Large);
}

#[test]
fn a_manifest_built_from_real_bytes_has_correct_offsets_and_hashes() {
    let ciphertext = vec![7u8; 250];
    let manifest = build_manifest(&ciphertext, 100, &ManifestLimits::default()).unwrap();

    assert_eq!(manifest.total_size, 250);
    assert_eq!(manifest.chunks.len(), 3);
    assert_eq!(manifest.chunks[0].offset, 0);
    assert_eq!(manifest.chunks[1].offset, 100);
    assert_eq!(manifest.chunks[2].offset, 200);
    assert_eq!(manifest.chunks[2].size, 50);

    let expected_hash = ChunkHash::from_ciphertext_chunk(&ciphertext[200..250]);
    assert_eq!(manifest.chunks[2].hash, expected_hash);
}

#[test]
fn the_blob_id_is_a_real_content_hash_of_the_whole_ciphertext() {
    let ciphertext = vec![9u8; 500];
    let manifest = build_manifest(&ciphertext, 100, &ManifestLimits::default()).unwrap();
    assert_eq!(manifest.blob_id, BlobId::from_ciphertext(&ciphertext));
}

#[test]
fn a_file_over_the_size_limit_is_rejected() {
    let limits = ManifestLimits { max_file_bytes: 100, ..ManifestLimits::default() };
    let ciphertext = vec![0u8; 200];
    let result = build_manifest(&ciphertext, 50, &limits);
    assert_eq!(result, Err(ManifestError::FileTooLarge { actual: 200, max: 100 }));
}

#[test]
fn too_many_chunks_is_rejected_before_hashing_anything() {
    let limits = ManifestLimits { max_chunks: 2, ..ManifestLimits::default() };
    let ciphertext = vec![0u8; 300];
    let result = build_manifest(&ciphertext, 100, &limits);
    assert_eq!(result, Err(ManifestError::TooManyChunks { actual: 3, max: 2 }));
}

#[test]
fn identical_ciphertext_always_produces_the_same_blob_id() {
    let ciphertext = vec![3u8; 400];
    let a = build_manifest(&ciphertext, 100, &ManifestLimits::default()).unwrap();
    let b = build_manifest(&ciphertext, 100, &ManifestLimits::default()).unwrap();
    assert_eq!(a.blob_id, b.blob_id);
}

#[test]
fn a_fresh_bitmap_is_entirely_missing() {
    let bitmap = ResumeBitmap::new(5);
    assert!(!bitmap.is_complete());
    assert_eq!(bitmap.missing_ranges(), vec![(0, 5)]);
}

#[test]
fn marking_every_chunk_received_completes_the_bitmap() {
    let mut bitmap = ResumeBitmap::new(3);
    bitmap.mark_received(0);
    bitmap.mark_received(1);
    bitmap.mark_received(2);
    assert!(bitmap.is_complete());
    assert!(bitmap.missing_ranges().is_empty());
}

#[test]
fn missing_ranges_groups_contiguous_gaps() {
    let mut bitmap = ResumeBitmap::new(10);
    for i in [0, 1, 2, 5, 6, 9] {
        bitmap.mark_received(i);
    }
    assert_eq!(bitmap.missing_ranges(), vec![(3, 5), (7, 9)]);
    assert_eq!(bitmap.received_count(), 6);
}

#[test]
fn a_normal_transfer_walks_offer_through_completion() {
    let s = TransferState::Offered;
    let s = s.transition(TransferEvent::Accept).unwrap();
    assert_eq!(s, TransferState::Accepted);
    let s = s.transition(TransferEvent::Start).unwrap();
    assert_eq!(s, TransferState::InProgress);
    let s = s.transition(TransferEvent::ChunksComplete).unwrap();
    assert_eq!(s, TransferState::Completed);
    assert!(s.is_terminal());
}

#[test]
fn pause_and_resume_returns_to_in_progress() {
    let s = TransferState::InProgress;
    let s = s.transition(TransferEvent::Pause).unwrap();
    assert_eq!(s, TransferState::Paused);
    let s = s.transition(TransferEvent::Resume).unwrap();
    assert_eq!(s, TransferState::InProgress);
}

#[test]
fn completed_is_terminal_and_rejects_further_events() {
    let s = TransferState::Completed;
    assert!(s.is_terminal());
    assert!(s.transition(TransferEvent::Cancel).is_err());
    assert!(s.transition(TransferEvent::Pause).is_err());
}

#[test]
fn starting_a_transfer_that_was_never_accepted_is_rejected() {
    let s = TransferState::Offered;
    let result = s.transition(TransferEvent::Start);
    assert_eq!(
        result,
        Err(InvalidTransition { state: TransferState::Offered, event: TransferEvent::Start })
    );
}

#[test]
fn a_real_chunk_verifies_against_its_own_descriptor() {
    let ciphertext = vec![5u8; 300];
    let manifest = build_manifest(&ciphertext, 100, &ManifestLimits::default()).unwrap();
    assert!(verify_chunk(&ciphertext[0..100], &manifest.chunks[0]));
}

#[test]
fn a_tampered_chunk_fails_verification() {
    let ciphertext = vec![5u8; 300];
    let manifest = build_manifest(&ciphertext, 100, &ManifestLimits::default()).unwrap();
    let mut tampered = ciphertext[0..100].to_vec();
    tampered[0] ^= 0xFF;
    assert!(!verify_chunk(&tampered, &manifest.chunks[0]));
}

#[test]
fn a_complete_correctly_assembled_blob_verifies() {
    let ciphertext = vec![5u8; 300];
    let manifest = build_manifest(&ciphertext, 100, &ManifestLimits::default()).unwrap();
    assert!(verify_complete_blob(&ciphertext, &manifest));
}

#[test]
fn tampering_after_manifest_construction_fails_whole_blob_verification() {
    let ciphertext = vec![5u8; 300];
    let manifest = build_manifest(&ciphertext, 100, &ManifestLimits::default()).unwrap();
    let mut tampered = ciphertext.clone();
    tampered[250] ^= 0xFF;
    assert!(!verify_complete_blob(&tampered, &manifest));
}

#[test]
fn received_count_plus_missing_run_lengths_is_the_chunk_count() {
    let mut b = ResumeBitmap::new(10);
    for i in [0u32, 1, 2, 5, 6, 9] {
        b.mark_received(i);
    }
    let missing: u32 = b.missing_ranges().iter().map(|(s, e)| e - s).sum();
    assert_eq!(b.received_count(), 6);
    assert_eq!(missing, 4);
    assert_eq!(b.received_count() as u32 + missing, 10);
}
