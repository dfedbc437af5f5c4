use siar::capability::descriptor::{CapabilityDescriptor, CapabilityParameters, CapabilityRequirement};
use siar::capability::error::CapabilityNegotiationError;
use siar::capability::hash::CapabilitySetHash;
use siar::capability::id::{CapabilityId, CapabilityNamespace};
use siar::capability::set::CapabilitySet;
use siar::capability::transcript::{confirm, HandshakeNonce, NegotiationHash};
use siar::capability::version::CapabilityVersion;

fn hash_desc(namespace: CapabilityNamespace, code: u32) -> CapabilityDescriptor {
    CapabilityDescriptor::new(
        CapabilityId::new(namespace, code),
        CapabilityVersion::new(1, 0),
        CapabilityRequirement::Optional,
        CapabilityParameters::Empty,
    )
}

#[test]
fn hash_is_independent_of_insertion_order() {
    let mut a = CapabilitySet::new();
    a.insert(hash_desc(CapabilityNamespace::Files, 5)).unwrap();
    a.insert(hash_desc(CapabilityNamespace::Core, 1)).unwrap();
    a.insert(hash_desc(CapabilityNamespace::Dtn, 3)).unwrap();

    let mut b = CapabilitySet::new();
    b.insert(hash_desc(CapabilityNamespace::Dtn, 3)).unwrap();
    b.insert(hash_desc(CapabilityNamespace::Core, 1)).unwrap();
    b.insert(hash_desc(CapabilityNamespace::Files, 5)).unwrap();

    assert_eq!(CapabilitySetHash::of(&a), CapabilitySetHash::of(&b));
}

#[test]
fn hash_changes_when_set_content_changes() {
    let mut a = CapabilitySet::new();
    a.insert(hash_desc(CapabilityNamespace::Core, 1)).unwrap();

    let mut b = CapabilitySet::new();
    b.insert(hash_desc(CapabilityNamespace::Core, 2)).unwrap();

    assert_ne!(CapabilitySetHash::of(&a), CapabilitySetHash::of(&b));
}

fn set_with(code: u32) -> CapabilitySet {
    let mut set = CapabilitySet::new();
    set.insert(CapabilityDescriptor::new(
        CapabilityId::new(CapabilityNamespace::Core, code),
        CapabilityVersion::new(1, 0),
        CapabilityRequirement::Optional,
        CapabilityParameters::Empty,
    ))
    .unwrap();
    set
}

#[test]
fn generate_produces_distinct_nonces() {
    let a = HandshakeNonce::generate();
    let b = HandshakeNonce::generate();
    assert_ne!(a, b);
}

#[test]
fn transcript_hash_is_symmetric_regardless_of_which_side_is_local() {
    let a = set_with(1);
    let b = set_with(2);
    let selected = set_with(1);
    let nonce = HandshakeNonce::generate();

    let from_a = NegotiationHash::compute(&a, &b, &selected, nonce);
    let from_b = NegotiationHash::compute(&b, &a, &selected, nonce);
    assert_eq!(from_a, from_b);
}

#[test]
fn transcript_hash_changes_with_nonce() {
    let a = set_with(1);
    let b = set_with(2);
    let selected = set_with(1);

    let h1 = NegotiationHash::compute(&a, &b, &selected, HandshakeNonce::from_bytes([1; 16]));
    let h2 = NegotiationHash::compute(&a, &b, &selected, HandshakeNonce::from_bytes([2; 16]));
    assert_ne!(h1, h2);
}

#[test]
fn transcript_hash_changes_with_selected_set() {
    let a = set_with(1);
    let b = set_with(2);
    let nonce = HandshakeNonce::from_bytes([9; 16]);

    let h1 = NegotiationHash::compute(&a, &b, &set_with(1), nonce);
    let h2 = NegotiationHash::compute(&a, &b, &set_with(2), nonce);
    assert_ne!(h1, h2);
}

#[test]
fn confirm_accepts_matching_and_rejects_mismatched_hashes() {
    let a = set_with(1);
    let b = set_with(2);
    let selected = set_with(1);
    let nonce = HandshakeNonce::generate();

    let mine = NegotiationHash::compute(&a, &b, &selected, nonce);
    let theirs_matching = NegotiationHash::compute(&b, &a, &selected, nonce);
    assert!(confirm(mine, theirs_matching).is_ok());

    let theirs_wrong = NegotiationHash::compute(&a, &b, &set_with(2), nonce);
    assert_eq!(
        confirm(mine, theirs_wrong),
        Err(CapabilityNegotiationError::TranscriptMismatch)
    );
}
