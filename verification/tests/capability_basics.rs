use siar::capability::descriptor::{BoundedBytes, BoundedBytesError, CapabilityBits, MAX_PARAMETER_BYTES};
use siar::capability::id::{CapabilityId, CapabilityNamespace, NamespaceId};
use siar::capability::version::CapabilityVersion;

#[test]
fn bounded_bytes_rejects_oversized_input() {
    let ok = BoundedBytes::new(vec![0u8; MAX_PARAMETER_BYTES]);
    assert!(ok.is_ok());

    let too_big = BoundedBytes::new(vec![0u8; MAX_PARAMETER_BYTES + 1]);
    assert_eq!(
        too_big.unwrap_err(),
        BoundedBytesError::TooLarge {
            len: MAX_PARAMETER_BYTES + 1,
            max: MAX_PARAMETER_BYTES
        }
    );
}

#[test]
fn bits_intersect_matches_boolean_and() {
    let local = CapabilityBits::empty().with_bit(0).with_bit(2).with_bit(5);
    let remote = CapabilityBits::empty().with_bit(2).with_bit(5).with_bit(9);
    let negotiated = local.intersect(remote);

    assert!(!negotiated.has_bit(0));
    assert!(negotiated.has_bit(2));
    assert!(negotiated.has_bit(5));
    assert!(!negotiated.has_bit(9));
}

#[test]
fn ordering_is_total_and_deterministic() {
    let a = CapabilityId::new(CapabilityNamespace::Core, 1);
    let b = CapabilityId::new(CapabilityNamespace::Core, 2);
    let c = CapabilityId::new(CapabilityNamespace::Files, 0);
    assert!(a < b);
    assert!(b < c);

    let app1 = CapabilityId::new(CapabilityNamespace::Application(NamespaceId(1)), 0);
    let app2 = CapabilityId::new(CapabilityNamespace::Application(NamespaceId(2)), 0);
    assert!(app1 < app2);
}

#[test]
fn negotiate_takes_lower_minor_on_matching_major() {
    let local = CapabilityVersion::new(1, 4);
    let remote = CapabilityVersion::new(1, 2);
    assert_eq!(local.negotiate(remote), Some(CapabilityVersion::new(1, 2)));
    assert_eq!(remote.negotiate(local), Some(CapabilityVersion::new(1, 2)));
}

#[test]
fn negotiate_rejects_major_mismatch() {
    let local = CapabilityVersion::new(2, 0);
    let remote = CapabilityVersion::new(1, 9);
    assert_eq!(local.negotiate(remote), None);
}
