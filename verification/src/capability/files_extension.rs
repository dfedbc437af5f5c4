//! The `files/1` extension: chunked, ciphertext-addressed file transfer
//! capabilities with a negotiated maximum chunk size.
use vstd::prelude::*;
use crate::capability::descriptor::{
    CapabilityDescriptor, CapabilityParameters, CapabilityRequirement, DescriptorView, ParamsView,
};
use crate::capability::extension::{ExtensionNegotiator, push_greatest};
use crate::capability::id::{CapabilityId, CapabilityNamespace};
use crate::capability::registry::{
    CapabilityDefinition, CapabilityDependency, CapabilityRegistry, ParameterSchema, RegistryView, SecurityClass,
};
use crate::capability::set::CapabilitySet;
use crate::capability::version::CapabilityVersion;

verus! {

pub const FIXED_CHUNKING: u32 = 0;
pub const RESUME: u32 = 1;
pub const PARALLEL_CHUNKS: u32 = 2;
pub const CIPHERTEXT_ADDRESSING: u32 = 3;
pub const PARTIAL_READ: u32 = 4;
pub const MULTI_SOURCE: u32 = 5;
pub const MAX_CHUNK_SIZE: u32 = 6;

/// The `files/1` capability with the given code.
pub open spec fn files_id(code: u32) -> CapabilityId {
    CapabilityId { namespace: CapabilityNamespace::Files, code }
}

fn id(code: u32) -> (r: CapabilityId)
    ensures
        r == files_id(code),
{
    CapabilityId::new(CapabilityNamespace::Files, code)
}

pub open spec fn files_definition(code: u32, name: &'static str, schema: ParameterSchema, class: SecurityClass) -> CapabilityDefinition {
    CapabilityDefinition {
        id: files_id(code),
        name,
        max_version: CapabilityVersion { major: 1, minor: 0 },
        parameter_schema: schema,
        security_class: class,
    }
}

/// The `files/1` registry: seven definitions and the one dependency edge
/// (`parallel_chunks` requires `fixed_chunking`).
pub open spec fn files_registry() -> RegistryView {
    RegistryView {
        definitions: Map::empty().insert(
            files_id(FIXED_CHUNKING),
            files_definition(FIXED_CHUNKING, "files.fixed_chunking", ParameterSchema::Empty, SecurityClass::Functional),
        ).insert(
            files_id(RESUME),
            files_definition(RESUME, "files.resume", ParameterSchema::Empty, SecurityClass::Functional),
        ).insert(
            files_id(PARALLEL_CHUNKS),
            files_definition(PARALLEL_CHUNKS, "files.parallel_chunks", ParameterSchema::Empty, SecurityClass::Functional),
        ).insert(
            files_id(CIPHERTEXT_ADDRESSING),
            files_definition(
                CIPHERTEXT_ADDRESSING,
                "files.ciphertext_addressing",
                ParameterSchema::Empty,
                SecurityClass::SecuritySensitive,
            ),
        ).insert(
            files_id(PARTIAL_READ),
            files_definition(PARTIAL_READ, "files.partial_read", ParameterSchema::Empty, SecurityClass::Functional),
        ).insert(
            files_id(MULTI_SOURCE),
            files_definition(MULTI_SOURCE, "files.multi_source", ParameterSchema::Empty, SecurityClass::Functional),
        ).insert(
            files_id(MAX_CHUNK_SIZE),
            files_definition(MAX_CHUNK_SIZE, "files.max_chunk_size", ParameterSchema::U32, SecurityClass::Functional),
        ),
        dependencies: seq![
            CapabilityDependency { capability: files_id(PARALLEL_CHUNKS), requires: files_id(FIXED_CHUNKING) },
        ],
    }
}

pub open spec fn files_descriptor(code: u32, requirement: CapabilityRequirement, parameters: ParamsView) -> DescriptorView {
    DescriptorView { id: files_id(code), version: CapabilityVersion { major: 1, minor: 0 }, requirement, parameters }
}

/// The `files/1` advertisement: `fixed_chunking`, `ciphertext_addressing`
/// and `max_chunk_size` required, the rest optional, in code order.
pub open spec fn files_advertisement(max_chunk_size: u32) -> Seq<DescriptorView> {
    seq![
        files_descriptor(FIXED_CHUNKING, CapabilityRequirement::Required, ParamsView::Empty),
        files_descriptor(RESUME, CapabilityRequirement::Optional, ParamsView::Empty),
        files_descriptor(PARALLEL_CHUNKS, CapabilityRequirement::Optional, ParamsView::Empty),
        files_descriptor(CIPHERTEXT_ADDRESSING, CapabilityRequirement::Required, ParamsView::Empty),
        files_descriptor(PARTIAL_READ, CapabilityRequirement::Optional, ParamsView::Empty),
        files_descriptor(MULTI_SOURCE, CapabilityRequirement::Optional, ParamsView::Empty),
        files_descriptor(MAX_CHUNK_SIZE, CapabilityRequirement::Required, ParamsView::U32(max_chunk_size)),
    ]
}

/// A `files/1` negotiator with a caller-chosen maximum chunk size.
#[derive(Debug)]
pub struct FilesExtensionNegotiator {
    max_chunk_size: u32,
    registry: CapabilityRegistry,
}

fn definition(code: u32, name: &'static str, schema: ParameterSchema, class: SecurityClass) -> (r: CapabilityDefinition)
    ensures
        r == files_definition(code, name, schema, class),
{
    CapabilityDefinition {
        id: id(code),
        name,
        max_version: CapabilityVersion::new(1, 0),
        parameter_schema: schema,
        security_class: class,
    }
}

fn descriptor(code: u32, requirement: CapabilityRequirement, parameters: CapabilityParameters) -> (r: CapabilityDescriptor)
    ensures
        r@ == files_descriptor(code, requirement, parameters@),
{
    CapabilityDescriptor::new(id(code), CapabilityVersion::new(1, 0), requirement, parameters)
}

impl FilesExtensionNegotiator {
    #[verifier::type_invariant]
    spec fn inv(&self) -> bool {
        self.registry.wf() && self.registry@ == files_registry()
    }

    pub closed spec fn max_chunk(&self) -> u32 {
        self.max_chunk_size
    }

    pub fn new(max_chunk_size: u32) -> (r: Self)
        ensures
            r.advertised() == files_advertisement(max_chunk_size),
            r.registry_view() == files_registry(),
    {
        let mut registry = CapabilityRegistry::new();
        registry.register(definition(FIXED_CHUNKING, "files.fixed_chunking", ParameterSchema::Empty, SecurityClass::Functional));
        registry.register(definition(RESUME, "files.resume", ParameterSchema::Empty, SecurityClass::Functional));
        registry.register(definition(PARALLEL_CHUNKS, "files.parallel_chunks", ParameterSchema::Empty, SecurityClass::Functional));
        registry.register(
            definition(
                CIPHERTEXT_ADDRESSING,
                "files.ciphertext_addressing",
                ParameterSchema::Empty,
                SecurityClass::SecuritySensitive,
            ),
        );
        registry.register(definition(PARTIAL_READ, "files.partial_read", ParameterSchema::Empty, SecurityClass::Functional));
        registry.register(definition(MULTI_SOURCE, "files.multi_source", ParameterSchema::Empty, SecurityClass::Functional));
        registry.register(definition(MAX_CHUNK_SIZE, "files.max_chunk_size", ParameterSchema::U32, SecurityClass::Functional));
        registry.register_dependency(CapabilityDependency { capability: id(PARALLEL_CHUNKS), requires: id(FIXED_CHUNKING) });
        proof {
            assert(registry@.dependencies =~= files_registry().dependencies);
            assert(registry@.definitions =~= files_registry().definitions);
        }
        FilesExtensionNegotiator { max_chunk_size, registry }
    }
}

impl Clone for FilesExtensionNegotiator {
    /// A copy: the registry is always the `files/1` one, so it is rebuilt.
    fn clone(&self) -> (r: Self)
        ensures
            r.max_chunk() == self.max_chunk(),
            r.advertised() == self.advertised(),
            r.registry_view() == self.registry_view(),
    {
        proof {
            use_type_invariant(self);
        }
        FilesExtensionNegotiator::new(self.max_chunk_size)
    }
}

impl ExtensionNegotiator for FilesExtensionNegotiator {
    closed spec fn advertised(&self) -> Seq<DescriptorView> {
        files_advertisement(self.max_chunk_size)
    }

    closed spec fn registry_view(&self) -> RegistryView {
        self.registry@
    }

    fn advertise(&self) -> (r: CapabilitySet) {
        let mut set = CapabilitySet::new();
        push_greatest(&mut set, descriptor(FIXED_CHUNKING, CapabilityRequirement::Required, CapabilityParameters::Empty));
        push_greatest(&mut set, descriptor(RESUME, CapabilityRequirement::Optional, CapabilityParameters::Empty));
        push_greatest(&mut set, descriptor(PARALLEL_CHUNKS, CapabilityRequirement::Optional, CapabilityParameters::Empty));
        push_greatest(&mut set, descriptor(CIPHERTEXT_ADDRESSING, CapabilityRequirement::Required, CapabilityParameters::Empty));
        push_greatest(&mut set, descriptor(PARTIAL_READ, CapabilityRequirement::Optional, CapabilityParameters::Empty));
        push_greatest(&mut set, descriptor(MULTI_SOURCE, CapabilityRequirement::Optional, CapabilityParameters::Empty));
        push_greatest(
            &mut set,
            descriptor(MAX_CHUNK_SIZE, CapabilityRequirement::Required, CapabilityParameters::U32(self.max_chunk_size)),
        );
        proof {
            assert(set@ =~= files_advertisement(self.max_chunk_size));
        }
        set
    }

    fn registry(&self) -> (r: &CapabilityRegistry) {
        proof {
            use_type_invariant(self);
        }
        &self.registry
    }
}

} // verus!
