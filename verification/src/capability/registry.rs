//! The capability registry: definitions (parameter shape, security class)
//! and dependency edges, with advertisement validation.
use vstd::prelude::*;
use crate::capability::descriptor::{CapabilityParameters, CapabilityRequirement, DescriptorView, ParamsView};
use crate::capability::error::CapabilityNegotiationError;
use crate::capability::id::{CapabilityId, id_equal};
use crate::capability::set::{CapabilitySet, has_id};
use crate::capability::version::CapabilityVersion;

verus! {

/// How sensitive a capability is.
#[derive(Debug, Clone, Copy, PartialEq, Eq, Hash, Structural)]
pub enum SecurityClass {
    Informational,
    Functional,
    SecuritySensitive,
    Critical,
}

/// The parameter shape a capability's definition expects (`Empty`: none).
#[derive(Debug, Clone, Copy, PartialEq, Eq, Hash, Structural)]
pub enum ParameterSchema {
    Empty,
    U32,
    U64,
    RangeU32,
    BitSet,
    Bytes,
}

/// Whether an advertised parameter has the shape a schema expects.
pub open spec fn schema_matches(schema: ParameterSchema, params: ParamsView) -> bool {
    match (schema, params) {
        (ParameterSchema::Empty, ParamsView::Empty) => true,
        (ParameterSchema::U32, ParamsView::U32(_)) => true,
        (ParameterSchema::U64, ParamsView::U64(_)) => true,
        (ParameterSchema::RangeU32, ParamsView::RangeU32 { .. }) => true,
        (ParameterSchema::BitSet, ParamsView::BitSet(_)) => true,
        (ParameterSchema::Bytes, ParamsView::Bytes(_)) => true,
        _ => false,
    }
}

impl ParameterSchema {
    /// Checks the shape (not the value) of an advertised parameter.
    pub fn matches(self, params: &CapabilityParameters) -> (r: bool)
        ensures
            r == schema_matches(self, params@),
    {
        match (self, params) {
            (ParameterSchema::Empty, CapabilityParameters::Empty) => true,
            (ParameterSchema::U32, CapabilityParameters::U32(_)) => true,
            (ParameterSchema::U64, CapabilityParameters::U64(_)) => true,
            (ParameterSchema::RangeU32, CapabilityParameters::RangeU32 { .. }) => true,
            (ParameterSchema::BitSet, CapabilityParameters::BitSet(_)) => true,
            (ParameterSchema::Bytes, CapabilityParameters::Bytes(_)) => true,
            _ => false,
        }
    }
}

/// The registry's entry for one capability id.
#[derive(Debug, Clone, Copy)]
pub struct CapabilityDefinition {
    pub id: CapabilityId,
    pub name: &'static str,
    pub max_version: CapabilityVersion,
    pub parameter_schema: ParameterSchema,
    pub security_class: SecurityClass,
}

/// One dependency edge: `capability` requires `requires` to be advertised too.
#[derive(Debug, Clone, Copy, PartialEq, Eq, Hash, Structural)]
pub struct CapabilityDependency {
    pub capability: CapabilityId,
    pub requires: CapabilityId,
}

/// Mathematical form of a registry: definitions by id, and the dependency
/// edges in registration order.
pub struct RegistryView {
    pub definitions: Map<CapabilityId, CapabilityDefinition>,
    pub dependencies: Seq<CapabilityDependency>,
}

/// The registry check of one descriptor: an unknown required capability
/// is missing; a known one must have the expected parameter shape.
pub open spec fn check_descriptor(reg: RegistryView, d: DescriptorView) -> Result<(), CapabilityNegotiationError> {
    if d.requirement == CapabilityRequirement::Required && !reg.definitions.contains_key(d.id) {
        Err(CapabilityNegotiationError::MissingRequired(d.id))
    } else if reg.definitions.contains_key(d.id) && !schema_matches(
        reg.definitions[d.id].parameter_schema,
        d.parameters,
    ) {
        Err(CapabilityNegotiationError::Malformed)
    } else {
        Ok(())
    }
}

/// The first failing descriptor check, in set order.
pub open spec fn check_descriptors(reg: RegistryView, s: Seq<DescriptorView>) -> Result<(), CapabilityNegotiationError>
    decreases s.len(),
{
    if s.len() == 0 {
        Ok(())
    } else {
        match check_descriptor(reg, s[0]) {
            Err(e) => Err(e),
            Ok(_) => check_descriptors(reg, s.drop_first()),
        }
    }
}

/// The first violated dependency edge, in registration order.
pub open spec fn check_dependencies(deps: Seq<CapabilityDependency>, s: Seq<DescriptorView>) -> Result<
    (),
    CapabilityNegotiationError,
>
    decreases deps.len(),
{
    if deps.len() == 0 {
        Ok(())
    } else if has_id(s, deps[0].capability) && !has_id(s, deps[0].requires) {
        Err(CapabilityNegotiationError::DependencyViolation { capability: deps[0].capability, missing: deps[0].requires })
    } else {
        check_dependencies(deps.drop_first(), s)
    }
}

/// Registry validation of an advertisement: descriptor checks first, then
/// dependency edges.
pub open spec fn spec_validate(reg: RegistryView, s: Seq<DescriptorView>) -> Result<(), CapabilityNegotiationError> {
    match check_descriptors(reg, s) {
        Err(e) => Err(e),
        Ok(_) => check_dependencies(reg.dependencies, s),
    }
}

/// A plain owned registry value (no global state).
#[derive(Debug, Clone, Default)]
pub struct CapabilityRegistry {
    definitions: Vec<CapabilityDefinition>,
    dependencies: Vec<CapabilityDependency>,
}

/// Definition ids occur at most once.
pub open spec fn unique_definitions(defs: Seq<CapabilityDefinition>) -> bool {
    forall|i: int, j: int| 0 <= i < j < defs.len() ==> (#[trigger] defs[i]).id != (#[trigger] defs[j]).id
}

/// The definitions of a list, keyed by id.
pub open spec fn definitions_map(defs: Seq<CapabilityDefinition>) -> Map<CapabilityId, CapabilityDefinition> {
    Map::new(
        |id: CapabilityId| exists|i: int| 0 <= i < defs.len() && defs[i].id == id,
        |id: CapabilityId| defs[choose|i: int| 0 <= i < defs.len() && defs[i].id == id],
    )
}

impl View for CapabilityRegistry {
    type V = RegistryView;

    closed spec fn view(&self) -> RegistryView {
        RegistryView { definitions: definitions_map(self.definitions@), dependencies: self.dependencies@ }
    }
}

proof fn lemma_definitions_map_at(defs: Seq<CapabilityDefinition>, i: int)
    requires
        unique_definitions(defs),
        0 <= i < defs.len(),
    ensures
        definitions_map(defs).contains_key(defs[i].id),
        definitions_map(defs)[defs[i].id] == defs[i],
{
    let id = defs[i].id;
    let k = choose|k: int| 0 <= k < defs.len() && defs[k].id == id;
    if k != i {
        if k < i {
            assert(defs[k].id != defs[i].id);
        } else {
            assert(defs[i].id != defs[k].id);
        }
    }
}

impl CapabilityRegistry {
    /// The registry's invariant: one definition per id.
    pub closed spec fn wf(&self) -> bool {
        unique_definitions(self.definitions@)
    }

    pub fn new() -> (r: Self)
        ensures
            r.wf(),
            r@.definitions == Map::<CapabilityId, CapabilityDefinition>::empty(),
            r@.dependencies == Seq::<CapabilityDependency>::empty(),
    {
        let r = CapabilityRegistry { definitions: Vec::new(), dependencies: Vec::new() };
        proof {
            assert(r@.definitions =~= Map::<CapabilityId, CapabilityDefinition>::empty());
        }
        r
    }

    /// Registers (or replaces) the definition for `definition.id`.
    pub fn register(&mut self, definition: CapabilityDefinition)
        requires
            old(self).wf(),
        ensures
            final(self).wf(),
            final(self)@.definitions == old(self)@.definitions.insert(definition.id, definition),
            final(self)@.dependencies == old(self)@.dependencies,
    {
        let ghost defs0 = self.definitions@;
        let n = self.definitions.len();
        let mut i: usize = 0;
        while i < n
            invariant
                n == self.definitions@.len(),
                self.definitions@ == defs0,
                defs0 == old(self).definitions@,
                unique_definitions(defs0),
                self.dependencies@ == old(self).dependencies@,
                i <= n,
                forall|j: int| 0 <= j < i ==> defs0[j].id != definition.id,
            decreases n - i,
        {
            if id_equal(&self.definitions[i].id, &definition.id) {
                self.definitions.set(i, definition);
                proof {
                    let defs1 = self.definitions@;
                    assert(unique_definitions(defs1)) by {
                        assert forall|a: int, b: int| 0 <= a < b < defs1.len() implies (#[trigger] defs1[a]).id
                            != (#[trigger] defs1[b]).id by {
                            assert(defs1[a].id == defs0[a].id);
                            assert(defs1[b].id == defs0[b].id);
                        }
                    }
                    assert(definitions_map(defs1) =~= definitions_map(defs0).insert(definition.id, definition)) by {
                        assert forall|id: CapabilityId| #[trigger] definitions_map(defs1).contains_key(id)
                            <==> definitions_map(defs0).insert(definition.id, definition).contains_key(id) by {
                            if definitions_map(defs1).contains_key(id) {
                                let k = choose|k: int| 0 <= k < defs1.len() && defs1[k].id == id;
                                assert(defs0[k].id == id);
                            }
                            if definitions_map(defs0).contains_key(id) {
                                let k = choose|k: int| 0 <= k < defs0.len() && defs0[k].id == id;
                                assert(defs1[k].id == id);
                            }
                            if id == definition.id {
                                assert(defs1[i as int].id == id);
                            }
                        }
                        assert forall|id: CapabilityId| #[trigger] definitions_map(defs1).contains_key(id)
                            implies definitions_map(defs1)[id] == definitions_map(defs0).insert(
                            definition.id,
                            definition,
                        )[id] by {
                            let k = choose|k: int| 0 <= k < defs1.len() && defs1[k].id == id;
                            lemma_definitions_map_at(defs1, k);
                            if id != definition.id {
                                assert(defs0[k] == defs1[k]);
                                lemma_definitions_map_at(defs0, k);
                            } else {
                                lemma_definitions_map_at(defs1, i as int);
                            }
                        }
                    }
                }
                return;
            }
            i += 1;
        }
        self.definitions.push(definition);
        proof {
            let defs1 = self.definitions@;
            assert(unique_definitions(defs1));
            assert(definitions_map(defs1) =~= definitions_map(defs0).insert(definition.id, definition)) by {
                assert forall|id: CapabilityId| #[trigger] definitions_map(defs1).contains_key(id)
                    <==> definitions_map(defs0).insert(definition.id, definition).contains_key(id) by {
                    if definitions_map(defs1).contains_key(id) {
                        let k = choose|k: int| 0 <= k < defs1.len() && defs1[k].id == id;
                        if k < n {
                            assert(defs0[k].id == id);
                        }
                    }
                    if definitions_map(defs0).contains_key(id) {
                        let k = choose|k: int| 0 <= k < defs0.len() && defs0[k].id == id;
                        assert(defs1[k].id == id);
                    }
                    if id == definition.id {
                        assert(defs1[n as int].id == id);
                    }
                }
                assert forall|id: CapabilityId| #[trigger] definitions_map(defs1).contains_key(id)
                    implies definitions_map(defs1)[id] == definitions_map(defs0).insert(
                    definition.id,
                    definition,
                )[id] by {
                    let k = choose|k: int| 0 <= k < defs1.len() && defs1[k].id == id;
                    lemma_definitions_map_at(defs1, k);
                    if id != definition.id {
                        assert(defs0[k] == defs1[k]);
                        lemma_definitions_map_at(defs0, k);
                    }
                }
            }
        }
    }

    /// Appends a dependency edge.
    pub fn register_dependency(&mut self, dependency: CapabilityDependency)
        requires
            old(self).wf(),
        ensures
            final(self).wf(),
            final(self)@.definitions == old(self)@.definitions,
            final(self)@.dependencies == old(self)@.dependencies.push(dependency),
    {
        self.dependencies.push(dependency);
    }

    /// The definition registered for `id`, if any.
    pub fn definition(&self, id: &CapabilityId) -> (r: Option<&CapabilityDefinition>)
        requires
            self.wf(),
        ensures
            r is Some <==> self@.definitions.contains_key(*id),
            r matches Some(d) ==> *d == self@.definitions[*id],
    {
        let n = self.definitions.len();
        let mut i: usize = 0;
        while i < n
            invariant
                self.wf(),
                n == self.definitions@.len(),
                i <= n,
                forall|j: int| 0 <= j < i ==> self.definitions@[j].id != *id,
            decreases n - i,
        {
            if id_equal(&self.definitions[i].id, id) {
                proof {
                    lemma_definitions_map_at(self.definitions@, i as int);
                }
                return Some(&self.definitions[i]);
            }
            i += 1;
        }
        None
    }

    /// Registry-level checks of one advertisement: unknown required
    /// capabilities, parameter shapes, then dependency consistency.
    pub fn validate(&self, set: &CapabilitySet) -> (r: Result<(), CapabilityNegotiationError>)
        requires
            self.wf(),
        ensures
            r == spec_validate(self@, set@),
    {
        let ghost reg = self@;
        let descs = set.as_slice();
        let ghost s = set@;
        let n = descs.len();
        let mut i: usize = 0;
        proof {
            assert(s.skip(0) =~= s);
        }
        while i < n
            invariant
                self.wf(),
                reg == self@,
                n == descs@.len(),
                s == set@,
                descs@.map_values(|d: crate::capability::descriptor::CapabilityDescriptor| d@) == s,
                i <= n,
                check_descriptors(reg, s) == check_descriptors(reg, s.skip(i as int)),
            decreases n - i,
        {
            let d = &descs[i];
            proof {
                assert(s[i as int] == d@);
                assert(s.skip(i as int)[0] == s[i as int]);
                assert(s.skip(i as int).drop_first() =~= s.skip(i + 1));
            }
            let def = self.definition(&d.id);
            match def {
                None => {
                    if d.requirement == CapabilityRequirement::Required {
                        return Err(CapabilityNegotiationError::MissingRequired(d.id));
                    }
                },
                Some(def) => {
                    if !def.parameter_schema.matches(&d.parameters) {
                        return Err(CapabilityNegotiationError::Malformed);
                    }
                },
            }
            i += 1;
        }
        proof {
            assert(s.skip(n as int) =~= Seq::<DescriptorView>::empty());
        }
        let m = self.dependencies.len();
        let mut k: usize = 0;
        proof {
            assert(reg.dependencies.skip(0) =~= reg.dependencies);
        }
        while k < m
            invariant
                reg == self@,
                m == self.dependencies@.len(),
                s == set@,
                k <= m,
                check_descriptors(reg, s) == Ok::<(), CapabilityNegotiationError>(()),
                check_dependencies(reg.dependencies, s) == check_dependencies(
                    reg.dependencies.skip(k as int),
                    s,
                ),
            decreases m - k,
        {
            let dep = self.dependencies[k];
            proof {
                assert(reg.dependencies.skip(k as int)[0] == dep);
                assert(reg.dependencies.skip(k as int).drop_first() =~= reg.dependencies.skip(k + 1));
            }
            if set.contains(&dep.capability) && !set.contains(&dep.requires) {
                return Err(
                    CapabilityNegotiationError::DependencyViolation { capability: dep.capability, missing: dep.requires },
                );
            }
            k += 1;
        }
        proof {
            assert(reg.dependencies.skip(m as int) =~= Seq::<CapabilityDependency>::empty());
        }
        Ok(())
    }
}

} // verus!
