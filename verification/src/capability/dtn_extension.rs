//! The `dtn/1` extension: delay-tolerant delivery capabilities with a
//! negotiated maximum bundle size. No dependency edges are registered.
use vstd::prelude::*;
use crate::capability::descriptor::{
    CapabilityDescriptor, CapabilityParameters, CapabilityRequirement, DescriptorView, ParamsView,
};
use crate::capability::extension::{ExtensionNegotiator, push_greatest};
use crate::capability::id::{CapabilityId, CapabilityNamespace};
use crate::capability::registry::{
    CapabilityDefinition, CapabilityRegistry, ParameterSchema, RegistryView, SecurityClass,
};
use crate::capability::set::CapabilitySet;
use crate::capability::version::CapabilityVersion;

verus! {

pub const DIRECT_ONLY: u32 = 0;
pub const RELAY_ACK: u32 = 1;
pub const SPRAY_WAIT: u32 = 2;
pub const GATEWAY_HANDOFF: u32 = 3;
pub const BLOB_CHUNK: u32 = 4;
pub const LOCAL_BROADCAST: u32 = 5;
pub const MAX_BUNDLE_SIZE: u32 = 6;

/// The `dtn/1` capability with the given code.
pub open spec fn dtn_id(code: u32) -> CapabilityId {
    CapabilityId { namespace: CapabilityNamespace::Dtn, code }
}

fn id(code: u32) -> (r: CapabilityId)
    ensures
        r == dtn_id(code),
{
    CapabilityId::new(CapabilityNamespace::Dtn, code)
}

pub open spec fn dtn_definition(code: u32, name: &'static str, schema: ParameterSchema, class: SecurityClass) -> CapabilityDefinition {
    CapabilityDefinition {
        id: dtn_id(code),
        name,
        max_version: CapabilityVersion { major: 1, minor: 0 },
        parameter_schema: schema,
        security_class: class,
    }
}

/// The `dtn/1` registry: seven definitions, all functional, and no
/// dependency edges.
pub open spec fn dtn_registry() -> RegistryView {
    RegistryView {
        definitions: Map::empty().insert(
            dtn_id(DIRECT_ONLY),
            dtn_definition(DIRECT_ONLY, "dtn.direct_only", ParameterSchema::Empty, SecurityClass::Functional),
        ).insert(
            dtn_id(RELAY_ACK),
            dtn_definition(RELAY_ACK, "dtn.relay_ack", ParameterSchema::Empty, SecurityClass::Functional),
        ).insert(
            dtn_id(SPRAY_WAIT),
            dtn_definition(SPRAY_WAIT, "dtn.spray_wait", ParameterSchema::Empty, SecurityClass::Functional),
        ).insert(
            dtn_id(GATEWAY_HANDOFF),
            dtn_definition(
                GATEWAY_HANDOFF,
                "dtn.gateway_handoff",
                ParameterSchema::Empty,
                SecurityClass::Functional,
            ),
        ).insert(
            dtn_id(BLOB_CHUNK),
            dtn_definition(BLOB_CHUNK, "dtn.blob_chunk", ParameterSchema::Empty, SecurityClass::Functional),
        ).insert(
            dtn_id(LOCAL_BROADCAST),
            dtn_definition(LOCAL_BROADCAST, "dtn.local_broadcast", ParameterSchema::Empty, SecurityClass::Functional),
        ).insert(
            dtn_id(MAX_BUNDLE_SIZE),
            dtn_definition(MAX_BUNDLE_SIZE, "dtn.max_bundle_size", ParameterSchema::U32, SecurityClass::Functional),
        ),
        dependencies: Seq::empty(),
    }
}

pub open spec fn dtn_descriptor(code: u32, requirement: CapabilityRequirement, parameters: ParamsView) -> DescriptorView {
    DescriptorView { id: dtn_id(code), version: CapabilityVersion { major: 1, minor: 0 }, requirement, parameters }
}

/// The `dtn/1` advertisement: `direct_only` and `max_bundle_size`
/// required, the rest optional, in code order.
pub open spec fn dtn_advertisement(max_bundle_size: u32) -> Seq<DescriptorView> {
    seq![
        dtn_descriptor(DIRECT_ONLY, CapabilityRequirement::Required, ParamsView::Empty),
        dtn_descriptor(RELAY_ACK, CapabilityRequirement::Optional, ParamsView::Empty),
        dtn_descriptor(SPRAY_WAIT, CapabilityRequirement::Optional, ParamsView::Empty),
        dtn_descriptor(GATEWAY_HANDOFF, CapabilityRequirement::Required, ParamsView::Empty),
        dtn_descriptor(BLOB_CHUNK, CapabilityRequirement::Optional, ParamsView::Empty),
        dtn_descriptor(LOCAL_BROADCAST, CapabilityRequirement::Optional, ParamsView::Empty),
        dtn_descriptor(MAX_BUNDLE_SIZE, CapabilityRequirement::Required, ParamsView::U32(max_bundle_size)),
    ]
}

/// A `dtn/1` negotiator with a caller-chosen maximum chunk size.
#[derive(Debug)]
pub struct DtnExtensionNegotiator {
    max_bundle_size: u32,
    registry: CapabilityRegistry,
}

fn definition(code: u32, name: &'static str, schema: ParameterSchema, class: SecurityClass) -> (r: CapabilityDefinition)
    ensures
        r == dtn_definition(code, name, schema, class),
{
    CapabilityDefinition {
        id: id(code),
        name,
        max_version: CapabilityVersion::new(1, 0),
        parameter_schema: schema,
        security_class: class,
    }
}

fn descriptor(code: u32, requirement: CapabilityRequirement, parameters: CapabilityParameters) -> (r: CapabilityDescriptor)
    ensures
        r@ == dtn_descriptor(code, requirement, parameters@),
{
    CapabilityDescriptor::new(id(code), CapabilityVersion::new(1, 0), requirement, parameters)
}

impl DtnExtensionNegotiator {
    #[verifier::type_invariant]
    spec fn inv(&self) -> bool {
        self.registry.wf() && self.registry@ == dtn_registry()
    }

    pub closed spec fn max_bundle(&self) -> u32 {
        self.max_bundle_size
    }

    pub fn new(max_bundle_size: u32) -> (r: Self)
        ensures
            r.advertised() == dtn_advertisement(max_bundle_size),
            r.registry_view() == dtn_registry(),
    {
        let mut registry = CapabilityRegistry::new();
        registry.register(definition(DIRECT_ONLY, "dtn.direct_only", ParameterSchema::Empty, SecurityClass::Functional));
        registry.register(definition(RELAY_ACK, "dtn.relay_ack", ParameterSchema::Empty, SecurityClass::Functional));
        registry.register(definition(SPRAY_WAIT, "dtn.spray_wait", ParameterSchema::Empty, SecurityClass::Functional));
        registry.register(
            definition(
                GATEWAY_HANDOFF,
                "dtn.gateway_handoff",
                ParameterSchema::Empty,
                SecurityClass::Functional,
            ),
        );
        registry.register(definition(BLOB_CHUNK, "dtn.blob_chunk", ParameterSchema::Empty, SecurityClass::Functional));
        registry.register(definition(LOCAL_BROADCAST, "dtn.local_broadcast", ParameterSchema::Empty, SecurityClass::Functional));
        registry.register(definition(MAX_BUNDLE_SIZE, "dtn.max_bundle_size", ParameterSchema::U32, SecurityClass::Functional));
        proof {
            assert(registry@.dependencies =~= dtn_registry().dependencies);
            assert(registry@.definitions =~= dtn_registry().definitions);
        }
        DtnExtensionNegotiator { max_bundle_size, registry }
    }
}

impl Clone for DtnExtensionNegotiator {
    /// A copy: the registry is always the `dtn/1` one, so it is rebuilt.
    fn clone(&self) -> (r: Self)
        ensures
            r.max_bundle() == self.max_bundle(),
            r.advertised() == self.advertised(),
            r.registry_view() == self.registry_view(),
    {
        proof {
            use_type_invariant(self);
        }
        DtnExtensionNegotiator::new(self.max_bundle_size)
    }
}

impl ExtensionNegotiator for DtnExtensionNegotiator {
    closed spec fn advertised(&self) -> Seq<DescriptorView> {
        dtn_advertisement(self.max_bundle_size)
    }

    closed spec fn registry_view(&self) -> RegistryView {
        self.registry@
    }

    fn advertise(&self) -> (r: CapabilitySet) {
        let mut set = CapabilitySet::new();
        push_greatest(&mut set, descriptor(DIRECT_ONLY, CapabilityRequirement::Required, CapabilityParameters::Empty));
        push_greatest(&mut set, descriptor(RELAY_ACK, CapabilityRequirement::Optional, CapabilityParameters::Empty));
        push_greatest(&mut set, descriptor(SPRAY_WAIT, CapabilityRequirement::Optional, CapabilityParameters::Empty));
        push_greatest(&mut set, descriptor(GATEWAY_HANDOFF, CapabilityRequirement::Required, CapabilityParameters::Empty));
        push_greatest(&mut set, descriptor(BLOB_CHUNK, CapabilityRequirement::Optional, CapabilityParameters::Empty));
        push_greatest(&mut set, descriptor(LOCAL_BROADCAST, CapabilityRequirement::Optional, CapabilityParameters::Empty));
        push_greatest(
            &mut set,
            descriptor(MAX_BUNDLE_SIZE, CapabilityRequirement::Required, CapabilityParameters::U32(self.max_bundle_size)),
        );
        proof {
            assert(set@ =~= dtn_advertisement(self.max_bundle_size));
        }
        set
    }

    fn registry(&self) -> (r: &CapabilityRegistry) {
        proof {
            use_type_invariant(self);
        }
        &self.registry
    }
}

} // verus!
