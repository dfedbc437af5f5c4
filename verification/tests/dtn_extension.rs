use siar::capability::descriptor::{CapabilityDescriptor, CapabilityParameters, CapabilityRequirement};
use siar::capability::error::CapabilityNegotiationError;
use siar::capability::extension::ExtensionNegotiator;
use siar::capability::dtn_extension::{
    DtnExtensionNegotiator, BLOB_CHUNK, DIRECT_ONLY, GATEWAY_HANDOFF, LOCAL_BROADCAST, MAX_BUNDLE_SIZE, RELAY_ACK,
    SPRAY_WAIT,
};
use siar::capability::id::{CapabilityId, CapabilityNamespace};
use siar::capability::policy::CapabilityPolicy;
use siar::capability::set::CapabilitySet;
use siar::capability::version::CapabilityVersion;

fn dtn_cap(code: u32) -> CapabilityId {
    CapabilityId::new(CapabilityNamespace::Dtn, code)
}

#[test]
fn effective_max_bundle_size_is_the_minimum_of_both_sides() {
    let generous = DtnExtensionNegotiator::new(4 * 1024 * 1024);
    let smaller = DtnExtensionNegotiator::new(1024 * 1024);

    let negotiated = generous
        .negotiate(&smaller.advertise(), &CapabilityPolicy::new())
        .unwrap();

    assert_eq!(
        negotiated.get(&dtn_cap(MAX_BUNDLE_SIZE)).unwrap().parameters,
        CapabilityParameters::U32(1024 * 1024)
    );
}

#[test]
fn negotiation_is_symmetric_between_two_dtn_peers() {
    let a = DtnExtensionNegotiator::new(4 * 1024 * 1024);
    let b = DtnExtensionNegotiator::new(1024 * 1024);

    let from_a = a.negotiate(&b.advertise(), &CapabilityPolicy::new()).unwrap();
    let from_b = b.negotiate(&a.advertise(), &CapabilityPolicy::new()).unwrap();

    let a_ids: Vec<_> = from_a.iter().map(|d| d.id).collect();
    let b_ids: Vec<_> = from_b.iter().map(|d| d.id).collect();
    assert_eq!(a_ids, b_ids);
}

#[test]
fn peer_lacking_direct_delivery_fails_negotiation() {
    let full = DtnExtensionNegotiator::new(1024 * 1024);

    let mut relay_only = CapabilitySet::new();
    relay_only
        .insert(CapabilityDescriptor::new(
            dtn_cap(RELAY_ACK),
            CapabilityVersion::new(1, 0),
            CapabilityRequirement::Optional,
            CapabilityParameters::Empty,
        ))
        .unwrap();
    relay_only
        .insert(CapabilityDescriptor::new(
            dtn_cap(MAX_BUNDLE_SIZE),
            CapabilityVersion::new(1, 0),
            CapabilityRequirement::Required,
            CapabilityParameters::U32(1024 * 1024),
        ))
        .unwrap();

    let err = full.negotiate(&relay_only, &CapabilityPolicy::new()).unwrap_err();
    assert_eq!(
        err,
        CapabilityNegotiationError::MissingRequired(dtn_cap(DIRECT_ONLY))
    );
}

#[test]
fn optional_features_negotiate_present_when_both_sides_advertise_them() {
    let a = DtnExtensionNegotiator::new(1024 * 1024);
    let b = DtnExtensionNegotiator::new(1024 * 1024);

    let negotiated = a.negotiate(&b.advertise(), &CapabilityPolicy::new()).unwrap();
    for optional in [RELAY_ACK, SPRAY_WAIT, GATEWAY_HANDOFF, BLOB_CHUNK, LOCAL_BROADCAST] {
        assert!(negotiated.contains(&dtn_cap(optional)), "expected {optional} to be negotiated");
    }
}
