use siar::capability::descriptor::{CapabilityDescriptor, CapabilityParameters, CapabilityRequirement};
use siar::capability::error::CapabilityNegotiationError;
use siar::capability::extension::ExtensionNegotiator;
use siar::capability::files_extension::{
    FilesExtensionNegotiator, CIPHERTEXT_ADDRESSING, FIXED_CHUNKING, MAX_CHUNK_SIZE, PARALLEL_CHUNKS,
};
use siar::capability::id::{CapabilityId, CapabilityNamespace};
use siar::capability::policy::CapabilityPolicy;
use siar::capability::set::CapabilitySet;
use siar::capability::version::CapabilityVersion;

fn files_cap(code: u32) -> CapabilityId {
    CapabilityId::new(CapabilityNamespace::Files, code)
}

#[test]
fn effective_max_chunk_size_is_the_minimum_of_both_sides() {
    let sender = FilesExtensionNegotiator::new(4 * 1024 * 1024);
    let receiver = FilesExtensionNegotiator::new(1024 * 1024);

    let negotiated = sender
        .negotiate(&receiver.advertise(), &CapabilityPolicy::new())
        .unwrap();

    assert_eq!(
        negotiated.get(&files_cap(MAX_CHUNK_SIZE)).unwrap().parameters,
        CapabilityParameters::U32(1024 * 1024)
    );
}

#[test]
fn negotiation_is_symmetric_between_two_files_peers() {
    let a = FilesExtensionNegotiator::new(4 * 1024 * 1024);
    let b = FilesExtensionNegotiator::new(1024 * 1024);

    let from_a = a
        .negotiate(&b.advertise(), &CapabilityPolicy::new())
        .unwrap();
    let from_b = b
        .negotiate(&a.advertise(), &CapabilityPolicy::new())
        .unwrap();

    let a_ids: Vec<_> = from_a.iter().map(|d| d.id).collect();
    let b_ids: Vec<_> = from_b.iter().map(|d| d.id).collect();
    assert_eq!(a_ids, b_ids);
}

#[test]
fn all_required_capabilities_negotiate_successfully_between_matching_peers() {
    let a = FilesExtensionNegotiator::new(4 * 1024 * 1024);
    let b = FilesExtensionNegotiator::new(4 * 1024 * 1024);

    let negotiated = a
        .negotiate(&b.advertise(), &CapabilityPolicy::new())
        .unwrap();
    assert!(negotiated.contains(&files_cap(FIXED_CHUNKING)));
    assert!(negotiated.contains(&files_cap(CIPHERTEXT_ADDRESSING)));
    assert!(negotiated.contains(&files_cap(MAX_CHUNK_SIZE)));
}

#[test]
fn dependency_violation_surfaces_through_the_trait_negotiate_path() {
    let negotiator = FilesExtensionNegotiator::new(1024 * 1024);

    let mut inconsistent = CapabilitySet::new();
    inconsistent
        .insert(CapabilityDescriptor::new(
            files_cap(PARALLEL_CHUNKS),
            CapabilityVersion::new(1, 0),
            CapabilityRequirement::Optional,
            CapabilityParameters::Empty,
        ))
        .unwrap();

    let err = negotiator
        .negotiate(&inconsistent, &CapabilityPolicy::new())
        .unwrap_err();
    assert_eq!(
        err,
        CapabilityNegotiationError::DependencyViolation {
            capability: files_cap(PARALLEL_CHUNKS),
            missing: files_cap(FIXED_CHUNKING),
        }
    );
}
