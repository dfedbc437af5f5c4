//! Typed capability identifiers and their namespaces, with the canonical
//! total order that capability sets are kept in.
use vstd::prelude::*;

verus! {

/// A registered third-party namespace identifier.
#[derive(Debug, Clone, Copy, PartialEq, Eq, PartialOrd, Ord, Hash, Structural)]
pub struct NamespaceId(pub u32);

/// The built-in capability domains plus third-party `Application`
/// namespaces. Variants are ordered as declared.
#[derive(Debug, Clone, Copy, PartialEq, Eq, PartialOrd, Ord, Hash, Structural)]
pub enum CapabilityNamespace {
    Core,
    Security,
    Transport,
    Messaging,
    Files,
    Groups,
    Presence,
    Dtn,
    Media,
    Platform,
    Resource,
    Application(NamespaceId),
}

/// A stable capability identifier, unique within its namespace.
#[derive(Debug, Clone, Copy, PartialEq, Eq, PartialOrd, Ord, Hash, Structural)]
pub struct CapabilityId {
    pub namespace: CapabilityNamespace,
    pub code: u32,
}

/// Position of a namespace's variant in declaration order.
pub open spec fn namespace_rank(ns: CapabilityNamespace) -> int {
    match ns {
        CapabilityNamespace::Core => 0,
        CapabilityNamespace::Security => 1,
        CapabilityNamespace::Transport => 2,
        CapabilityNamespace::Messaging => 3,
        CapabilityNamespace::Files => 4,
        CapabilityNamespace::Groups => 5,
        CapabilityNamespace::Presence => 6,
        CapabilityNamespace::Dtn => 7,
        CapabilityNamespace::Media => 8,
        CapabilityNamespace::Platform => 9,
        CapabilityNamespace::Resource => 10,
        CapabilityNamespace::Application(_) => 11,
    }
}

/// The third-party id carried by an `Application` namespace (0 otherwise).
pub open spec fn namespace_app(ns: CapabilityNamespace) -> int {
    match ns {
        CapabilityNamespace::Application(id) => id.0 as int,
        _ => 0,
    }
}

/// Strict canonical order on namespaces: declaration order, then the
/// third-party id.
pub open spec fn namespace_lt(a: CapabilityNamespace, b: CapabilityNamespace) -> bool {
    namespace_rank(a) < namespace_rank(b)
        || (namespace_rank(a) == namespace_rank(b) && namespace_app(a) < namespace_app(b))
}

/// Strict canonical order on ids: namespace, then code.
pub open spec fn id_lt(a: CapabilityId, b: CapabilityId) -> bool {
    namespace_lt(a.namespace, b.namespace) || (a.namespace == b.namespace && a.code < b.code)
}

/// Two namespaces of equal rank and third-party id are the same namespace.
pub proof fn lemma_namespace_eq(a: CapabilityNamespace, b: CapabilityNamespace)
    requires
        namespace_rank(a) == namespace_rank(b),
        namespace_app(a) == namespace_app(b),
    ensures
        a == b,
{
}

/// The canonical id order is a strict total order: irreflexive, transitive
/// and total on distinct ids.
pub proof fn lemma_id_order(a: CapabilityId, b: CapabilityId, c: CapabilityId)
    ensures
        !id_lt(a, a),
        id_lt(a, b) && id_lt(b, c) ==> id_lt(a, c),
        id_lt(a, b) ==> !id_lt(b, a),
        a != b ==> id_lt(a, b) || id_lt(b, a),
{
    if namespace_rank(a.namespace) == namespace_rank(b.namespace)
        && namespace_app(a.namespace) == namespace_app(b.namespace) {
        lemma_namespace_eq(a.namespace, b.namespace);
    }
}

fn namespace_rank_exec(ns: CapabilityNamespace) -> (r: (u32, u32))
    ensures
        r.0 == namespace_rank(ns),
        r.1 == namespace_app(ns),
{
    match ns {
        CapabilityNamespace::Core => (0, 0),
        CapabilityNamespace::Security => (1, 0),
        CapabilityNamespace::Transport => (2, 0),
        CapabilityNamespace::Messaging => (3, 0),
        CapabilityNamespace::Files => (4, 0),
        CapabilityNamespace::Groups => (5, 0),
        CapabilityNamespace::Presence => (6, 0),
        CapabilityNamespace::Dtn => (7, 0),
        CapabilityNamespace::Media => (8, 0),
        CapabilityNamespace::Platform => (9, 0),
        CapabilityNamespace::Resource => (10, 0),
        CapabilityNamespace::Application(id) => (11, id.0),
    }
}

/// Executable canonical comparison of two ids.
pub fn id_less(a: &CapabilityId, b: &CapabilityId) -> (r: bool)
    ensures
        r == id_lt(*a, *b),
{
    let (ra, aa) = namespace_rank_exec(a.namespace);
    let (rb, ab) = namespace_rank_exec(b.namespace);
    if ra != rb {
        return ra < rb;
    }
    if aa != ab {
        return aa < ab;
    }
    proof {
        lemma_namespace_eq(a.namespace, b.namespace);
    }
    a.code < b.code
}

/// Executable equality of two ids.
pub fn id_equal(a: &CapabilityId, b: &CapabilityId) -> (r: bool)
    ensures
        r == (*a == *b),
{
    let (ra, aa) = namespace_rank_exec(a.namespace);
    let (rb, ab) = namespace_rank_exec(b.namespace);
    if ra == rb && aa == ab {
        proof {
            lemma_namespace_eq(a.namespace, b.namespace);
        }
        a.code == b.code
    } else {
        false
    }
}

impl CapabilityId {
    pub fn new(namespace: CapabilityNamespace, code: u32) -> (r: Self)
        ensures
            r.namespace == namespace,
            r.code == code,
    {
        CapabilityId { namespace, code }
    }
}

} // verus!
