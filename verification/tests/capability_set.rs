use siar::capability::descriptor::{CapabilityDescriptor, CapabilityParameters, CapabilityRequirement};
use siar::capability::id::{CapabilityId, CapabilityNamespace};
use siar::capability::set::{CapabilitySet, CapabilitySetError, MAX_CAPABILITIES_PER_SET};
use siar::capability::version::CapabilityVersion;

fn set_desc(namespace: CapabilityNamespace, code: u32) -> CapabilityDescriptor {
    CapabilityDescriptor::new(
        CapabilityId::new(namespace, code),
        CapabilityVersion::new(1, 0),
        CapabilityRequirement::Optional,
        CapabilityParameters::Empty,
    )
}

#[test]
fn insert_maintains_canonical_order_regardless_of_insertion_order() {
    let mut set = CapabilitySet::new();
    set.insert(set_desc(CapabilityNamespace::Files, 5)).unwrap();
    set.insert(set_desc(CapabilityNamespace::Core, 1)).unwrap();
    set.insert(set_desc(CapabilityNamespace::Files, 1)).unwrap();

    let ids: Vec<_> = set.iter().map(|d| d.id).collect();
    assert_eq!(
        ids,
        vec![
            CapabilityId::new(CapabilityNamespace::Core, 1),
            CapabilityId::new(CapabilityNamespace::Files, 1),
            CapabilityId::new(CapabilityNamespace::Files, 5),
        ]
    );
}

#[test]
fn insert_replaces_existing_id_instead_of_duplicating() {
    let mut set = CapabilitySet::new();
    set.insert(set_desc(CapabilityNamespace::Core, 1)).unwrap();
    let updated = CapabilityDescriptor::new(
        CapabilityId::new(CapabilityNamespace::Core, 1),
        CapabilityVersion::new(2, 0),
        CapabilityRequirement::Required,
        CapabilityParameters::Empty,
    );
    set.insert(updated.clone()).unwrap();

    assert_eq!(set.len(), 1);
    assert_eq!(
        set.get(&CapabilityId::new(CapabilityNamespace::Core, 1)),
        Some(&updated)
    );
}

#[test]
fn insert_rejects_past_max_capacity() {
    let mut set = CapabilitySet::new();
    for code in 0..MAX_CAPABILITIES_PER_SET as u32 {
        set.insert(set_desc(CapabilityNamespace::Core, code)).unwrap();
    }
    let overflow = set.insert(set_desc(CapabilityNamespace::Core, MAX_CAPABILITIES_PER_SET as u32));
    assert_eq!(
        overflow.unwrap_err(),
        CapabilitySetError::TooManyCapabilities {
            max: MAX_CAPABILITIES_PER_SET
        }
    );
}
