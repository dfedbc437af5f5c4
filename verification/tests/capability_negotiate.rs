use siar::capability::descriptor::{CapabilityBits, CapabilityDescriptor, CapabilityParameters, CapabilityRequirement};
use siar::capability::error::CapabilityNegotiationError;
use siar::capability::id::{CapabilityId, CapabilityNamespace};
use siar::capability::negotiate::negotiate;
use siar::capability::policy::CapabilityPolicy;
use siar::capability::registry::{CapabilityDefinition, CapabilityRegistry, ParameterSchema, SecurityClass};
use siar::capability::set::CapabilitySet;
use siar::capability::version::CapabilityVersion;

fn cap(code: u32) -> CapabilityId {
    CapabilityId::new(CapabilityNamespace::Files, code)
}

fn neg_desc(
    id: CapabilityId,
    version: CapabilityVersion,
    requirement: CapabilityRequirement,
    parameters: CapabilityParameters,
) -> CapabilityDescriptor {
    CapabilityDescriptor::new(id, version, requirement, parameters)
}

#[test]
fn optional_capability_only_on_one_side_is_dropped_not_failed() {
    let mut local = CapabilitySet::new();
    local
        .insert(neg_desc(
            cap(1),
            CapabilityVersion::new(1, 0),
            CapabilityRequirement::Optional,
            CapabilityParameters::Empty,
        ))
        .unwrap();
    let remote = CapabilitySet::new();

    let result = negotiate(
        &local,
        &remote,
        &CapabilityRegistry::new(),
        &CapabilityPolicy::new(),
    )
    .unwrap();
    assert!(result.is_empty());
}

#[test]
fn required_capability_missing_on_other_side_fails() {
    let mut local = CapabilitySet::new();
    local
        .insert(neg_desc(
            cap(1),
            CapabilityVersion::new(1, 0),
            CapabilityRequirement::Required,
            CapabilityParameters::Empty,
        ))
        .unwrap();
    let remote = CapabilitySet::new();

    let err = negotiate(
        &local,
        &remote,
        &CapabilityRegistry::new(),
        &CapabilityPolicy::new(),
    )
    .unwrap_err();
    assert_eq!(err, CapabilityNegotiationError::MissingRequired(cap(1)));
}

#[test]
fn max_limit_parameter_takes_the_minimum() {
    let mut local = CapabilitySet::new();
    local
        .insert(neg_desc(
            cap(2),
            CapabilityVersion::new(1, 0),
            CapabilityRequirement::Optional,
            CapabilityParameters::U32(4 * 1024 * 1024),
        ))
        .unwrap();
    let mut remote = CapabilitySet::new();
    remote
        .insert(neg_desc(
            cap(2),
            CapabilityVersion::new(1, 0),
            CapabilityRequirement::Optional,
            CapabilityParameters::U32(1024 * 1024),
        ))
        .unwrap();

    let result = negotiate(
        &local,
        &remote,
        &CapabilityRegistry::new(),
        &CapabilityPolicy::new(),
    )
    .unwrap();
    assert_eq!(
        result.get(&cap(2)).unwrap().parameters,
        CapabilityParameters::U32(1024 * 1024)
    );
}

#[test]
fn bitset_negotiates_bitwise_and() {
    let mut local = CapabilitySet::new();
    local
        .insert(neg_desc(
            cap(3),
            CapabilityVersion::new(1, 0),
            CapabilityRequirement::Optional,
            CapabilityParameters::BitSet(CapabilityBits::empty().with_bit(0).with_bit(1)),
        ))
        .unwrap();
    let mut remote = CapabilitySet::new();
    remote
        .insert(neg_desc(
            cap(3),
            CapabilityVersion::new(1, 0),
            CapabilityRequirement::Optional,
            CapabilityParameters::BitSet(CapabilityBits::empty().with_bit(1).with_bit(2)),
        ))
        .unwrap();

    let result = negotiate(
        &local,
        &remote,
        &CapabilityRegistry::new(),
        &CapabilityPolicy::new(),
    )
    .unwrap();
    let CapabilityParameters::BitSet(bits) = result.get(&cap(3)).unwrap().parameters else {
        panic!("expected BitSet parameters");
    };
    assert!(!bits.has_bit(0));
    assert!(bits.has_bit(1));
    assert!(!bits.has_bit(2));
}

#[test]
fn hard_policy_removes_capability_even_when_both_peers_want_it() {
    let mut local = CapabilitySet::new();
    local
        .insert(neg_desc(
            cap(4),
            CapabilityVersion::new(1, 0),
            CapabilityRequirement::Optional,
            CapabilityParameters::Empty,
        ))
        .unwrap();
    let mut remote = CapabilitySet::new();
    remote
        .insert(neg_desc(
            cap(4),
            CapabilityVersion::new(1, 0),
            CapabilityRequirement::Optional,
            CapabilityParameters::Empty,
        ))
        .unwrap();

    let mut policy = CapabilityPolicy::new();
    policy.disable_hard(cap(4));

    let result = negotiate(&local, &remote, &CapabilityRegistry::new(), &policy).unwrap();
    assert!(!result.contains(&cap(4)));
}

#[test]
fn policy_disabling_a_required_capability_is_a_hard_failure() {
    let mut local = CapabilitySet::new();
    local
        .insert(neg_desc(
            cap(5),
            CapabilityVersion::new(1, 0),
            CapabilityRequirement::Required,
            CapabilityParameters::Empty,
        ))
        .unwrap();
    let mut remote = CapabilitySet::new();
    remote
        .insert(neg_desc(
            cap(5),
            CapabilityVersion::new(1, 0),
            CapabilityRequirement::Required,
            CapabilityParameters::Empty,
        ))
        .unwrap();

    let mut registry = CapabilityRegistry::new();
    registry.register(CapabilityDefinition {
        id: cap(5),
        name: "files.test5",
        max_version: CapabilityVersion::new(1, 0),
        parameter_schema: ParameterSchema::Empty,
        security_class: SecurityClass::Functional,
    });

    let mut policy = CapabilityPolicy::new();
    policy.disable_hard(cap(5));

    let err = negotiate(&local, &remote, &registry, &policy).unwrap_err();
    assert_eq!(err, CapabilityNegotiationError::SecurityPolicy(cap(5)));
}

#[test]
fn negotiation_is_symmetric_under_swapped_inputs() {
    let mut a = CapabilitySet::new();
    a.insert(neg_desc(
        cap(1),
        CapabilityVersion::new(1, 5),
        CapabilityRequirement::Required,
        CapabilityParameters::U32(10),
    ))
    .unwrap();
    a.insert(neg_desc(
        cap(6),
        CapabilityVersion::new(1, 0),
        CapabilityRequirement::Optional,
        CapabilityParameters::Empty,
    ))
    .unwrap();

    let mut b = CapabilitySet::new();
    b.insert(neg_desc(
        cap(1),
        CapabilityVersion::new(1, 2),
        CapabilityRequirement::Optional,
        CapabilityParameters::U32(7),
    ))
    .unwrap();

    let mut registry = CapabilityRegistry::new();
    registry.register(CapabilityDefinition {
        id: cap(1),
        name: "files.test1",
        max_version: CapabilityVersion::new(1, 5),
        parameter_schema: ParameterSchema::U32,
        security_class: SecurityClass::Functional,
    });
    let policy = CapabilityPolicy::new();

    let forward = negotiate(&a, &b, &registry, &policy).unwrap();
    let backward = negotiate(&b, &a, &registry, &policy).unwrap();

    let forward_ids: Vec<_> = forward.iter().map(|d| d.id).collect();
    let backward_ids: Vec<_> = backward.iter().map(|d| d.id).collect();
    assert_eq!(forward_ids, backward_ids);
    assert_eq!(
        forward.get(&cap(1)).unwrap().parameters,
        backward.get(&cap(1)).unwrap().parameters
    );
    assert_eq!(
        forward.get(&cap(1)).unwrap().requirement,
        backward.get(&cap(1)).unwrap().requirement
    );
}

#[test]
fn a_policy_disables_exactly_the_ids_named_in_any_layer() {
    let mut p = CapabilityPolicy::new();
    for code in 0..5 {
        assert!(!p.is_disabled(&cap(code)));
    }
    p.disable_hard(cap(1));
    p.disable_user(cap(2));
    p.disable_app(cap(3));
    p.disable_app(cap(3));
    assert!(!p.is_disabled(&cap(0)));
    assert!(p.is_disabled(&cap(1)));
    assert!(p.is_disabled(&cap(2)));
    assert!(p.is_disabled(&cap(3)));
    assert!(!p.is_disabled(&cap(4)));
}
