//! Per-extension negotiators: an extension advertises its own capability
//! set and owns its own registry; negotiation is the shared pipeline.
use vstd::prelude::*;
use crate::capability::descriptor::{CapabilityDescriptor, DescriptorView};
use crate::capability::error::CapabilityNegotiationError;
use crate::capability::id::{id_lt, lemma_id_order};
use crate::capability::negotiate::spec_negotiate;
use crate::capability::policy::CapabilityPolicy;
use crate::capability::registry::{CapabilityRegistry, RegistryView};
use crate::capability::set::{CapabilitySet, has_id, is_insert_position, MAX_CAPABILITIES_PER_SET};

verus! {

/// An extension's capability schema and advertisement, negotiated through
/// the shared pipeline.
pub trait ExtensionNegotiator {
    /// The descriptors this extension advertises.
    spec fn advertised(&self) -> Seq<DescriptorView>;

    /// This extension's registry contents.
    spec fn registry_view(&self) -> RegistryView;

    /// This extension's own advertised capabilities.
    fn advertise(&self) -> (r: CapabilitySet)
        ensures
            r.wf(),
            r@ == self.advertised();

    /// This extension's registry (schema, security classes, dependency edges).
    fn registry(&self) -> (r: &CapabilityRegistry)
        ensures
            r.wf(),
            r@ == self.registry_view();

    /// Negotiates this extension's advertisement against a peer's, under
    /// `policy`.
    fn negotiate(&self, remote: &CapabilitySet, policy: &CapabilityPolicy) -> (r: Result<
        CapabilitySet,
        CapabilityNegotiationError,
    >)
        requires
            remote.wf(),
        ensures
            match r {
                Ok(s) => s.wf() && spec_negotiate(self.advertised(), remote@, self.registry_view(), policy@)
                    == Ok::<Seq<DescriptorView>, CapabilityNegotiationError>(s@),
                Err(e) => spec_negotiate(self.advertised(), remote@, self.registry_view(), policy@) == Err::<
                    Seq<DescriptorView>,
                    CapabilityNegotiationError,
                >(e),
            },
    {
        let local = self.advertise();
        crate::capability::negotiate::negotiate(&local, remote, self.registry(), policy)
    }
}

/// Appends a descriptor whose id is greater than every id already present.
pub(crate) fn push_greatest(set: &mut CapabilitySet, d: CapabilityDescriptor)
    requires
        old(set).wf(),
        old(set)@.len() < MAX_CAPABILITIES_PER_SET,
        forall|i: int| 0 <= i < old(set)@.len() ==> id_lt(#[trigger] old(set)@[i].id, d.id),
    ensures
        final(set).wf(),
        final(set)@ == old(set)@.push(d@),
{
    let ghost s0 = set@;
    let ghost dv = d@;
    proof {
        assert(!has_id(s0, d.id)) by {
            if has_id(s0, d.id) {
                let k = choose|k: int| 0 <= k < s0.len() && s0[k].id == d.id;
                lemma_id_order(d.id, d.id, d.id);
            }
        }
    }
    let r = set.insert(d);
    proof {
        let p = choose|p: int| is_insert_position(s0, dv.id, p) && set@ == s0.insert(p, dv);
        if p < s0.len() {
            lemma_id_order(s0[p].id, dv.id, s0[p].id);
            assert(id_lt(dv.id, s0[p].id));
            assert(id_lt(s0[p].id, dv.id));
        }
        assert(s0.insert(p, dv) =~= s0.push(dv));
    }
}

} // verus!
