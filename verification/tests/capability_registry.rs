use siar::capability::descriptor::{CapabilityDescriptor, CapabilityParameters, CapabilityRequirement};
use siar::capability::error::CapabilityNegotiationError;
use siar::capability::id::{CapabilityId, CapabilityNamespace};
use siar::capability::registry::{CapabilityDefinition, CapabilityDependency, CapabilityRegistry, ParameterSchema, SecurityClass};
use siar::capability::set::CapabilitySet;
use siar::capability::version::CapabilityVersion;

fn files_chunking() -> CapabilityId {
    CapabilityId::new(CapabilityNamespace::Files, 1)
}

fn files_parallel() -> CapabilityId {
    CapabilityId::new(CapabilityNamespace::Files, 2)
}

fn reg_desc(id: CapabilityId, requirement: CapabilityRequirement) -> CapabilityDescriptor {
    CapabilityDescriptor::new(
        id,
        CapabilityVersion::new(1, 0),
        requirement,
        CapabilityParameters::Empty,
    )
}

#[test]
fn unknown_required_capability_is_rejected() {
    let registry = CapabilityRegistry::new();
    let mut set = CapabilitySet::new();
    set.insert(reg_desc(files_chunking(), CapabilityRequirement::Required))
        .unwrap();

    assert_eq!(
        registry.validate(&set),
        Err(CapabilityNegotiationError::MissingRequired(files_chunking()))
    );
}

#[test]
fn unknown_optional_capability_is_ignored_safely() {
    let registry = CapabilityRegistry::new();
    let mut set = CapabilitySet::new();
    set.insert(reg_desc(files_chunking(), CapabilityRequirement::Optional))
        .unwrap();

    assert!(registry.validate(&set).is_ok());
}

#[test]
fn dependency_violation_is_rejected() {
    let mut registry = CapabilityRegistry::new();
    registry.register_dependency(CapabilityDependency {
        capability: files_parallel(),
        requires: files_chunking(),
    });

    let mut set = CapabilitySet::new();
    set.insert(reg_desc(files_parallel(), CapabilityRequirement::Optional))
        .unwrap();

    assert_eq!(
        registry.validate(&set),
        Err(CapabilityNegotiationError::DependencyViolation {
            capability: files_parallel(),
            missing: files_chunking(),
        })
    );
}

#[test]
fn dependency_satisfied_when_prerequisite_present() {
    let mut registry = CapabilityRegistry::new();
    registry.register_dependency(CapabilityDependency {
        capability: files_parallel(),
        requires: files_chunking(),
    });

    let mut set = CapabilitySet::new();
    set.insert(reg_desc(files_parallel(), CapabilityRequirement::Optional))
        .unwrap();
    set.insert(reg_desc(files_chunking(), CapabilityRequirement::Optional))
        .unwrap();

    assert!(registry.validate(&set).is_ok());
}

#[test]
fn parameter_shape_mismatch_is_malformed() {
    let mut registry = CapabilityRegistry::new();
    registry.register(CapabilityDefinition {
        id: files_chunking(),
        name: "files.chunking",
        max_version: CapabilityVersion::new(1, 0),
        parameter_schema: ParameterSchema::U32,
        security_class: SecurityClass::Functional,
    });

    let mut set = CapabilitySet::new();
    set.insert(reg_desc(files_chunking(), CapabilityRequirement::Optional))
        .unwrap();

    assert_eq!(
        registry.validate(&set),
        Err(CapabilityNegotiationError::Malformed)
    );
}
