//! The pure negotiation function: validate both advertisements, intersect
//! them capability by capability in canonical id order, then apply local
//! policy.
use vstd::prelude::*;
use crate::capability::descriptor::{
    CapabilityDescriptor, CapabilityParameters, CapabilityRequirement, DescriptorView, ParamsView,
};
use crate::capability::error::CapabilityNegotiationError;
use crate::capability::id::{id_less, id_lt, lemma_id_order};
use crate::capability::policy::{CapabilityPolicy, PolicyView};
use crate::capability::registry::{CapabilityRegistry, RegistryView, spec_validate};
use crate::capability::set::{CapabilitySet, has_id, set_wf, sorted_by_id};
use crate::capability::version::spec_version_negotiate;
use crate::util::bytes_equal;

verus! {

pub open spec fn min_u32(a: u32, b: u32) -> u32 {
    if a <= b { a } else { b }
}

pub open spec fn max_u32(a: u32, b: u32) -> u32 {
    if a >= b { a } else { b }
}

pub open spec fn min_u64(a: u64, b: u64) -> u64 {
    if a <= b { a } else { b }
}

/// Per-shape combining rules: limits take the minimum, ranges overlap,
/// bitsets intersect, byte parameters must match exactly; differing
/// shapes do not combine.
pub open spec fn spec_combine_parameters(a: ParamsView, b: ParamsView) -> Option<ParamsView> {
    match (a, b) {
        (ParamsView::Empty, ParamsView::Empty) => Some(ParamsView::Empty),
        (ParamsView::U32(x), ParamsView::U32(y)) => Some(ParamsView::U32(min_u32(x, y))),
        (ParamsView::U64(x), ParamsView::U64(y)) => Some(ParamsView::U64(min_u64(x, y))),
        (ParamsView::RangeU32 { min: a_min, max: a_max }, ParamsView::RangeU32 { min: b_min, max: b_max }) => {
            let lo = max_u32(a_min, b_min);
            let hi = min_u32(a_max, b_max);
            if lo <= hi {
                Some(ParamsView::RangeU32 { min: lo, max: hi })
            } else {
                None
            }
        },
        (ParamsView::BitSet(x), ParamsView::BitSet(y)) => Some(ParamsView::BitSet(x & y)),
        (ParamsView::Bytes(x), ParamsView::Bytes(y)) => if x == y {
            Some(ParamsView::Bytes(x))
        } else {
            None
        },
        _ => None,
    }
}

/// One capability advertised by both sides: its negotiated form, nothing
/// when incompatible and optional on both sides, or an error when
/// incompatible and required by either. The requirement escalates to
/// `Required` if either side required it.
pub open spec fn spec_intersect_descriptor(l: DescriptorView, r: DescriptorView) -> Result<
    Option<DescriptorView>,
    CapabilityNegotiationError,
> {
    let required = l.requirement == CapabilityRequirement::Required || r.requirement
        == CapabilityRequirement::Required;
    match spec_version_negotiate(l.version, r.version) {
        None => if required {
            Err(CapabilityNegotiationError::VersionMismatch(l.id))
        } else {
            Ok(None)
        },
        Some(version) => match spec_combine_parameters(l.parameters, r.parameters) {
            None => if required {
                Err(CapabilityNegotiationError::Malformed)
            } else {
                Ok(None)
            },
            Some(parameters) => Ok(
                Some(
                    DescriptorView {
                        id: l.id,
                        version,
                        requirement: if required {
                            CapabilityRequirement::Required
                        } else {
                            CapabilityRequirement::Optional
                        },
                        parameters,
                    },
                ),
            ),
        },
    }
}

/// A capability present on one side only: dropped, unless that side
/// required it.
pub open spec fn one_sided(d: DescriptorView) -> Result<(), CapabilityNegotiationError> {
    if d.requirement == CapabilityRequirement::Required {
        Err(CapabilityNegotiationError::MissingRequired(d.id))
    } else {
        Ok(())
    }
}

/// Prepends `d` to a successful result.
pub open spec fn prepend(d: DescriptorView, r: Result<Seq<DescriptorView>, CapabilityNegotiationError>) -> Result<
    Seq<DescriptorView>,
    CapabilityNegotiationError,
> {
    match r {
        Ok(t) => Ok(seq![d] + t),
        Err(e) => Err(e),
    }
}

/// Concatenates a finished prefix with a successful result.
pub open spec fn after(p: Seq<DescriptorView>, r: Result<Seq<DescriptorView>, CapabilityNegotiationError>) -> Result<
    Seq<DescriptorView>,
    CapabilityNegotiationError,
> {
    match r {
        Ok(t) => Ok(p + t),
        Err(e) => Err(e),
    }
}

/// Walks two canonically ordered advertisements in id order (a merge),
/// intersecting ids both sides carry; the first failure in id order wins.
pub open spec fn intersect_all(l: Seq<DescriptorView>, r: Seq<DescriptorView>) -> Result<
    Seq<DescriptorView>,
    CapabilityNegotiationError,
>
    decreases l.len() + r.len(),
{
    if l.len() == 0 && r.len() == 0 {
        Ok(Seq::empty())
    } else if l.len() == 0 || (r.len() > 0 && id_lt(r[0].id, l[0].id)) {
        match one_sided(r[0]) {
            Err(e) => Err(e),
            Ok(_) => intersect_all(l, r.drop_first()),
        }
    } else if r.len() == 0 || id_lt(l[0].id, r[0].id) {
        match one_sided(l[0]) {
            Err(e) => Err(e),
            Ok(_) => intersect_all(l.drop_first(), r),
        }
    } else {
        match spec_intersect_descriptor(l[0], r[0]) {
            Err(e) => Err(e),
            Ok(None) => intersect_all(l.drop_first(), r.drop_first()),
            Ok(Some(d)) => prepend(d, intersect_all(l.drop_first(), r.drop_first())),
        }
    }
}

/// Removes policy-disabled capabilities; disabling a required one fails.
pub open spec fn policy_filter(s: Seq<DescriptorView>, pol: PolicyView) -> Result<
    Seq<DescriptorView>,
    CapabilityNegotiationError,
>
    decreases s.len(),
{
    if s.len() == 0 {
        Ok(Seq::empty())
    } else if pol.disables(s[0].id) {
        if s[0].requirement == CapabilityRequirement::Required {
            Err(CapabilityNegotiationError::SecurityPolicy(s[0].id))
        } else {
            policy_filter(s.drop_first(), pol)
        }
    } else {
        prepend(s[0], policy_filter(s.drop_first(), pol))
    }
}

/// The negotiation pipeline: validate local, validate remote, intersect,
/// policy filter.
pub open spec fn spec_negotiate(
    local: Seq<DescriptorView>,
    remote: Seq<DescriptorView>,
    reg: RegistryView,
    pol: PolicyView,
) -> Result<Seq<DescriptorView>, CapabilityNegotiationError> {
    match spec_validate(reg, local) {
        Err(e) => Err(e),
        Ok(_) => match spec_validate(reg, remote) {
            Err(e) => Err(e),
            Ok(_) => match intersect_all(local, remote) {
                Err(e) => Err(e),
                Ok(s) => policy_filter(s, pol),
            },
        },
    }
}

fn combine_parameters(local: &CapabilityParameters, remote: &CapabilityParameters) -> (r: Option<CapabilityParameters>)
    ensures
        match r {
            Some(p) => spec_combine_parameters(local@, remote@) == Some(p@),
            None => spec_combine_parameters(local@, remote@) is None,
        },
{
    match (local, remote) {
        (CapabilityParameters::Empty, CapabilityParameters::Empty) => Some(CapabilityParameters::Empty),
        (CapabilityParameters::U32(a), CapabilityParameters::U32(b)) => Some(
            CapabilityParameters::U32(if *a <= *b { *a } else { *b }),
        ),
        (CapabilityParameters::U64(a), CapabilityParameters::U64(b)) => Some(
            CapabilityParameters::U64(if *a <= *b { *a } else { *b }),
        ),
        (
            CapabilityParameters::RangeU32 { min: a_min, max: a_max },
            CapabilityParameters::RangeU32 { min: b_min, max: b_max },
        ) => {
            let min = if *a_min >= *b_min { *a_min } else { *b_min };
            let max = if *a_max <= *b_max { *a_max } else { *b_max };
            if min <= max {
                Some(CapabilityParameters::RangeU32 { min, max })
            } else {
                None
            }
        },
        (CapabilityParameters::BitSet(a), CapabilityParameters::BitSet(b)) => Some(
            CapabilityParameters::BitSet(a.intersect(*b)),
        ),
        (CapabilityParameters::Bytes(a), CapabilityParameters::Bytes(b)) => {
            if bytes_equal(a.as_slice(), b.as_slice()) {
                Some(CapabilityParameters::Bytes(a.duplicate()))
            } else {
                None
            }
        },
        _ => None,
    }
}

/// The view of an optional descriptor.
pub open spec fn opt_view(o: Option<CapabilityDescriptor>) -> Option<DescriptorView> {
    match o {
        Some(d) => Some(d@),
        None => None,
    }
}

fn intersect_descriptor(local: &CapabilityDescriptor, remote: &CapabilityDescriptor) -> (r: Result<
    Option<CapabilityDescriptor>,
    CapabilityNegotiationError,
>)
    ensures
        match r {
            Ok(o) => spec_intersect_descriptor(local@, remote@) == Ok::<
                Option<DescriptorView>,
                CapabilityNegotiationError,
            >(opt_view(o)),
            Err(e) => spec_intersect_descriptor(local@, remote@) == Err::<
                Option<DescriptorView>,
                CapabilityNegotiationError,
            >(e),
        },
{
    let required = local.requirement == CapabilityRequirement::Required || remote.requirement
        == CapabilityRequirement::Required;
    let version = match local.version.negotiate(remote.version) {
        Some(v) => v,
        None => {
            return if required {
                Err(CapabilityNegotiationError::VersionMismatch(local.id))
            } else {
                Ok(None)
            };
        },
    };
    let parameters = match combine_parameters(&local.parameters, &remote.parameters) {
        Some(p) => p,
        None => {
            return if required {
                Err(CapabilityNegotiationError::Malformed)
            } else {
                Ok(None)
            };
        },
    };
    let requirement = if required {
        CapabilityRequirement::Required
    } else {
        CapabilityRequirement::Optional
    };
    Ok(Some(CapabilityDescriptor::new(local.id, version, requirement, parameters)))
}

proof fn lemma_skip_step<A>(s: Seq<A>, i: int)
    requires
        0 <= i < s.len(),
    ensures
        s.skip(i)[0] == s[i],
        s.skip(i).drop_first() == s.skip(i + 1),
        s.skip(i).len() == s.len() - i,
{
    assert(s.skip(i).drop_first() =~= s.skip(i + 1));
}

proof fn lemma_after_prepend(p: Seq<DescriptorView>, d: DescriptorView, r: Result<Seq<DescriptorView>, CapabilityNegotiationError>)
    ensures
        after(p, prepend(d, r)) == after(p.push(d), r),
{
    match r {
        Ok(t) => {
            assert(p + (seq![d] + t) =~= p.push(d) + t);
        },
        Err(_) => {},
    }
}

/// Intersects two validated, canonically ordered advertisements.
fn intersect_sets(local: &CapabilitySet, remote: &CapabilitySet) -> (r: Result<
    Vec<CapabilityDescriptor>,
    CapabilityNegotiationError,
>)
    requires
        local.wf(),
        remote.wf(),
    ensures
        match r {
            Ok(v) => intersect_all(local@, remote@) == Ok::<Seq<DescriptorView>, CapabilityNegotiationError>(
                v@.map_values(|d: CapabilityDescriptor| d@),
            ) && set_wf(v@.map_values(|d: CapabilityDescriptor| d@)),
            Err(e) => intersect_all(local@, remote@) == Err::<Seq<DescriptorView>, CapabilityNegotiationError>(e),
        },
{
    let ls = local.as_slice();
    let rs = remote.as_slice();
    let ghost l = local@;
    let ghost rr = remote@;
    let mut out: Vec<CapabilityDescriptor> = Vec::new();
    let mut i: usize = 0;
    let mut j: usize = 0;
    proof {
        assert(l.skip(0) =~= l);
        assert(rr.skip(0) =~= rr);
        assert(out@.map_values(|d: CapabilityDescriptor| d@) =~= Seq::<DescriptorView>::empty());
    }
    while i < ls.len() || j < rs.len()
        invariant
            ls@.map_values(|d: CapabilityDescriptor| d@) == l,
            rs@.map_values(|d: CapabilityDescriptor| d@) == rr,
            l == local@,
            rr == remote@,
            set_wf(l),
            set_wf(rr),
            i <= l.len(),
            j <= rr.len(),
            intersect_all(l, rr) == after(
                out@.map_values(|d: CapabilityDescriptor| d@),
                intersect_all(l.skip(i as int), rr.skip(j as int)),
            ),
            sorted_by_id(out@.map_values(|d: CapabilityDescriptor| d@)),
            out@.len() <= i,
            forall|k: int, m: int|
                0 <= k < out@.len() && i <= m < l.len() ==> id_lt(#[trigger] out@[k].id, #[trigger] l[m].id),
        decreases l.len() + rr.len() - i - j,
    {
        let ghost outv = out@.map_values(|d: CapabilityDescriptor| d@);
        assert(l.skip(i as int).len() == l.len() - i);
        assert(rr.skip(j as int).len() == rr.len() - j);
        let take_remote = i >= ls.len() || (j < rs.len() && id_less(&rs[j].id, &ls[i].id));
        if take_remote {
            proof {
                lemma_skip_step(rr, j as int);
                assert(rr[j as int] == rs@[j as int]@);
                if i < l.len() {
                    lemma_skip_step(l, i as int);
                    assert(l[i as int] == ls@[i as int]@);
                }
            }
            if rs[j].requirement == CapabilityRequirement::Required {
                assert(intersect_all(l.skip(i as int), rr.skip(j as int)) == Err::<Seq<DescriptorView>, CapabilityNegotiationError>(CapabilityNegotiationError::MissingRequired(rs[j as int].id)));
                return Err(CapabilityNegotiationError::MissingRequired(rs[j].id));
            }
            j += 1;
        } else {
            proof {
                lemma_skip_step(l, i as int);
                assert(l[i as int] == ls@[i as int]@);
                if j < rr.len() {
                    lemma_skip_step(rr, j as int);
                    assert(rr[j as int] == rs@[j as int]@);
                }
            }
            let take_local = j >= rs.len() || id_less(&ls[i].id, &rs[j].id);
            if take_local {
                if ls[i].requirement == CapabilityRequirement::Required {
                    assert(intersect_all(l.skip(i as int), rr.skip(j as int)) == Err::<Seq<DescriptorView>, CapabilityNegotiationError>(CapabilityNegotiationError::MissingRequired(ls[i as int].id)));
                    return Err(CapabilityNegotiationError::MissingRequired(ls[i].id));
                }
                i += 1;
            } else {
                proof {
                    lemma_id_order(l[i as int].id, rr[j as int].id, rr[j as int].id);
                }
                match intersect_descriptor(&ls[i], &rs[j]) {
                    Err(e) => {
                        return Err(e);
                    },
                    Ok(None) => {},
                    Ok(Some(d)) => {
                        let ghost dv = d@;
                        out.push(d);
                        proof {
                            assert(out@.map_values(|d: CapabilityDescriptor| d@) =~= outv.push(dv));
                            lemma_after_prepend(outv, dv, intersect_all(l.skip(i + 1), rr.skip(j + 1)));
                            assert(dv.id == l[i as int].id);
                            assert forall|m: int| i < m < l.len() implies id_lt(dv.id, #[trigger] l[m].id) by {}
                        }
                    },
                }
                i += 1;
                j += 1;
            }
        }
    }
    proof {
        assert(l.skip(i as int) =~= Seq::<DescriptorView>::empty());
        assert(rr.skip(j as int) =~= Seq::<DescriptorView>::empty());
        assert(out@.map_values(|d: CapabilityDescriptor| d@) + Seq::<DescriptorView>::empty() =~= out@.map_values(
            |d: CapabilityDescriptor| d@,
        ));
    }
    Ok(out)
}

/// Applies the policy filter to an intersected, canonically ordered result.
fn apply_policy(s: &Vec<CapabilityDescriptor>, policy: &CapabilityPolicy) -> (r: Result<
    Vec<CapabilityDescriptor>,
    CapabilityNegotiationError,
>)
    requires
        set_wf(s@.map_values(|d: CapabilityDescriptor| d@)),
    ensures
        match r {
            Ok(v) => policy_filter(s@.map_values(|d: CapabilityDescriptor| d@), policy@) == Ok::<
                Seq<DescriptorView>,
                CapabilityNegotiationError,
            >(v@.map_values(|d: CapabilityDescriptor| d@)) && set_wf(v@.map_values(|d: CapabilityDescriptor| d@)),
            Err(e) => policy_filter(s@.map_values(|d: CapabilityDescriptor| d@), policy@) == Err::<
                Seq<DescriptorView>,
                CapabilityNegotiationError,
            >(e),
        },
{
    let ghost sv = s@.map_values(|d: CapabilityDescriptor| d@);
    let mut out: Vec<CapabilityDescriptor> = Vec::new();
    let mut k: usize = 0;
    proof {
        assert(sv.skip(0) =~= sv);
        assert(out@.map_values(|d: CapabilityDescriptor| d@) =~= Seq::<DescriptorView>::empty());
    }
    while k < s.len()
        invariant
            sv == s@.map_values(|d: CapabilityDescriptor| d@),
            set_wf(sv),
            k <= sv.len(),
            policy_filter(sv, policy@) == after(
                out@.map_values(|d: CapabilityDescriptor| d@),
                policy_filter(sv.skip(k as int), policy@),
            ),
            sorted_by_id(out@.map_values(|d: CapabilityDescriptor| d@)),
            out@.len() <= k,
            forall|a: int, m: int|
                0 <= a < out@.len() && k <= m < sv.len() ==> id_lt(#[trigger] out@[a].id, #[trigger] sv[m].id),
        decreases sv.len() - k,
    {
        let ghost outv = out@.map_values(|d: CapabilityDescriptor| d@);
        proof {
            lemma_skip_step(sv, k as int);
            assert(sv[k as int] == s@[k as int]@);
        }
        let d = &s[k];
        if policy.is_disabled(&d.id) {
            if d.requirement == CapabilityRequirement::Required {
                return Err(CapabilityNegotiationError::SecurityPolicy(d.id));
            }
        } else {
            let copy = d.duplicate();
            let ghost dv = copy@;
            out.push(copy);
            proof {
                assert(out@.map_values(|d: CapabilityDescriptor| d@) =~= outv.push(dv));
                lemma_after_prepend(outv, dv, policy_filter(sv.skip(k + 1), policy@));
                assert forall|m: int| k < m < sv.len() implies id_lt(dv.id, #[trigger] sv[m].id) by {}
            }
        }
        k += 1;
    }
    proof {
        assert(sv.skip(k as int) =~= Seq::<DescriptorView>::empty());
        assert(out@.map_values(|d: CapabilityDescriptor| d@) + Seq::<DescriptorView>::empty() =~= out@.map_values(
            |d: CapabilityDescriptor| d@,
        ));
    }
    Ok(out)
}

/// Combines two peers' advertisements into the mutually usable,
/// policy-filtered set, or the first failure of the pipeline.
pub fn negotiate(
    local: &CapabilitySet,
    remote: &CapabilitySet,
    registry: &CapabilityRegistry,
    policy: &CapabilityPolicy,
) -> (r: Result<CapabilitySet, CapabilityNegotiationError>)
    requires
        local.wf(),
        remote.wf(),
        registry.wf(),
    ensures
        match r {
            Ok(s) => s.wf() && spec_negotiate(local@, remote@, registry@, policy@) == Ok::<
                Seq<DescriptorView>,
                CapabilityNegotiationError,
            >(s@),
            Err(e) => spec_negotiate(local@, remote@, registry@, policy@) == Err::<
                Seq<DescriptorView>,
                CapabilityNegotiationError,
            >(e),
        },
{
    match registry.validate(local) {
        Err(e) => return Err(e),
        Ok(_) => {},
    }
    match registry.validate(remote) {
        Err(e) => return Err(e),
        Ok(_) => {},
    }
    let negotiated = match intersect_sets(local, remote) {
        Err(e) => return Err(e),
        Ok(v) => v,
    };
    let filtered = match apply_policy(&negotiated, policy) {
        Err(e) => return Err(e),
        Ok(v) => v,
    };
    Ok(CapabilitySet::from_sorted(filtered))
}

} // verus!

verus! {

proof fn lemma_combine_symmetric(a: ParamsView, b: ParamsView)
    ensures
        spec_combine_parameters(a, b) == spec_combine_parameters(b, a),
{
    match (a, b) {
        (ParamsView::BitSet(x), ParamsView::BitSet(y)) => {
            assert(x & y == y & x) by (bit_vector);
        },
        _ => {},
    }
}

proof fn lemma_intersect_descriptor_symmetric(x: DescriptorView, y: DescriptorView)
    requires
        x.id == y.id,
    ensures
        spec_intersect_descriptor(x, y) == spec_intersect_descriptor(y, x),
{
    lemma_combine_symmetric(x.parameters, y.parameters);
}

proof fn lemma_intersect_all_symmetric(a: Seq<DescriptorView>, b: Seq<DescriptorView>)
    ensures
        intersect_all(a, b) == intersect_all(b, a),
    decreases a.len() + b.len(),
{
    if a.len() == 0 && b.len() == 0 {
    } else if a.len() == 0 {
        lemma_intersect_all_symmetric(a, b.drop_first());
    } else if b.len() == 0 {
        lemma_intersect_all_symmetric(a.drop_first(), b);
    } else {
        lemma_id_order(a[0].id, b[0].id, b[0].id);
        if id_lt(b[0].id, a[0].id) {
            lemma_intersect_all_symmetric(a, b.drop_first());
        } else if id_lt(a[0].id, b[0].id) {
            lemma_intersect_all_symmetric(a.drop_first(), b);
        } else {
            lemma_intersect_descriptor_symmetric(a[0], b[0]);
            lemma_intersect_all_symmetric(a.drop_first(), b.drop_first());
        }
    }
}

/// Negotiation is deterministic under swapped roles: once both
/// advertisements pass registry validation, both peers derive the same
/// result (success or failure); and a success on one side is the same
/// success on the other.
pub proof fn lemma_negotiate_symmetric(
    a: Seq<DescriptorView>,
    b: Seq<DescriptorView>,
    reg: RegistryView,
    pol: PolicyView,
)
    ensures
        spec_validate(reg, a) is Ok && spec_validate(reg, b) is Ok ==> spec_negotiate(a, b, reg, pol)
            == spec_negotiate(b, a, reg, pol),
        spec_negotiate(a, b, reg, pol) is Ok ==> spec_negotiate(b, a, reg, pol) == spec_negotiate(a, b, reg, pol),
{
    lemma_intersect_all_symmetric(a, b);
}

proof fn lemma_intersect_all_ids(a: Seq<DescriptorView>, b: Seq<DescriptorView>)
    ensures
        intersect_all(a, b) matches Ok(s) ==> forall|i: int|
            0 <= i < s.len() ==> has_id(a, #[trigger] s[i].id) && has_id(b, s[i].id),
    decreases a.len() + b.len(),
{
    if a.len() == 0 && b.len() == 0 {
    } else if a.len() == 0 || (b.len() > 0 && id_lt(b[0].id, a[0].id)) {
        lemma_intersect_all_ids(a, b.drop_first());
        if let Ok(s) = intersect_all(a, b) {
            assert forall|i: int| 0 <= i < s.len() implies has_id(a, #[trigger] s[i].id) && has_id(b, s[i].id) by {
                let k = choose|k: int| 0 <= k < b.drop_first().len() && b.drop_first()[k].id == s[i].id;
                assert(b[k + 1].id == s[i].id);
            }
        }
    } else if b.len() == 0 || id_lt(a[0].id, b[0].id) {
        lemma_intersect_all_ids(a.drop_first(), b);
        if let Ok(s) = intersect_all(a, b) {
            assert forall|i: int| 0 <= i < s.len() implies has_id(a, #[trigger] s[i].id) && has_id(b, s[i].id) by {
                let k = choose|k: int| 0 <= k < a.drop_first().len() && a.drop_first()[k].id == s[i].id;
                assert(a[k + 1].id == s[i].id);
            }
        }
    } else {
        lemma_id_order(a[0].id, b[0].id, b[0].id);
        lemma_intersect_all_ids(a.drop_first(), b.drop_first());
        if let Ok(s) = intersect_all(a, b) {
            assert forall|i: int| 0 <= i < s.len() implies has_id(a, #[trigger] s[i].id) && has_id(b, s[i].id) by {
                match spec_intersect_descriptor(a[0], b[0]) {
                    Ok(Some(d)) => {
                        if i == 0 {
                            assert(a[0].id == s[i].id);
                            assert(b[0].id == s[i].id);
                        } else {
                            let t = intersect_all(a.drop_first(), b.drop_first())->Ok_0;
                            assert(s[i] == t[i - 1]);
                            let k = choose|k: int| 0 <= k < a.drop_first().len() && a.drop_first()[k].id == s[i].id;
                            assert(a[k + 1].id == s[i].id);
                            let m = choose|m: int| 0 <= m < b.drop_first().len() && b.drop_first()[m].id == s[i].id;
                            assert(b[m + 1].id == s[i].id);
                        }
                    },
                    _ => {
                        let k = choose|k: int| 0 <= k < a.drop_first().len() && a.drop_first()[k].id == s[i].id;
                        assert(a[k + 1].id == s[i].id);
                        let m = choose|m: int| 0 <= m < b.drop_first().len() && b.drop_first()[m].id == s[i].id;
                        assert(b[m + 1].id == s[i].id);
                    },
                }
            }
        }
    }
}

proof fn lemma_policy_filter_ids(s: Seq<DescriptorView>, pol: PolicyView)
    ensures
        policy_filter(s, pol) matches Ok(t) ==> forall|i: int|
            0 <= i < t.len() ==> !pol.disables(#[trigger] t[i].id) && exists|k: int| 0 <= k < s.len() && s[k] == t[i],
    decreases s.len(),
{
    if s.len() > 0 {
        lemma_policy_filter_ids(s.drop_first(), pol);
        if let Ok(t) = policy_filter(s, pol) {
            assert forall|i: int| 0 <= i < t.len() implies !pol.disables(#[trigger] t[i].id) && exists|k: int|
                0 <= k < s.len() && s[k] == t[i] by {
                if !pol.disables(s[0].id) && i == 0 {
                    assert(s[0] == t[i]);
                } else {
                    let rest = policy_filter(s.drop_first(), pol)->Ok_0;
                    let j = if pol.disables(s[0].id) { i } else { i - 1 };
                    assert(t[i] == rest[j]);
                    let k = choose|k: int| 0 <= k < s.drop_first().len() && s.drop_first()[k] == rest[j];
                    assert(s[k + 1] == t[i]);
                }
            }
        }
    }
}

/// Only mutually advertised capabilities survive negotiation, and none
/// that local policy disables: policy cannot be overridden by any pair of
/// advertisements.
pub proof fn lemma_negotiated_ids(
    a: Seq<DescriptorView>,
    b: Seq<DescriptorView>,
    reg: RegistryView,
    pol: PolicyView,
)
    ensures
        spec_negotiate(a, b, reg, pol) matches Ok(s) ==> forall|i: int|
            0 <= i < s.len() ==> has_id(a, #[trigger] s[i].id) && has_id(b, s[i].id) && !pol.disables(s[i].id),
{
    lemma_intersect_all_ids(a, b);
    if let Ok(s) = spec_negotiate(a, b, reg, pol) {
        let x = intersect_all(a, b)->Ok_0;
        lemma_policy_filter_ids(x, pol);
        assert forall|i: int| 0 <= i < s.len() implies has_id(a, #[trigger] s[i].id) && has_id(b, s[i].id)
            && !pol.disables(s[i].id) by {
            let k = choose|k: int| 0 <= k < x.len() && x[k] == s[i];
            assert(x[k].id == s[i].id);
        }
    }
}

proof fn lemma_required_absent_fails(a: Seq<DescriptorView>, b: Seq<DescriptorView>, k: int)
    requires
        sorted_by_id(a),
        sorted_by_id(b),
        0 <= k < a.len(),
        a[k].requirement == CapabilityRequirement::Required,
        !has_id(b, a[k].id),
    ensures
        intersect_all(a, b) is Err,
    decreases a.len() + b.len(),
{
    if a.len() == 0 || (b.len() > 0 && id_lt(b[0].id, a[0].id)) {
        assert(a.len() > 0);
        assert(!has_id(b.drop_first(), a[k].id)) by {
            if has_id(b.drop_first(), a[k].id) {
                let m = choose|m: int| 0 <= m < b.drop_first().len() && b.drop_first()[m].id == a[k].id;
                assert(b[m + 1].id == a[k].id);
            }
        }
        if one_sided(b[0]) is Ok {
            lemma_required_absent_fails(a, b.drop_first(), k);
        }
    } else if b.len() == 0 || id_lt(a[0].id, b[0].id) {
        if k > 0 && one_sided(a[0]) is Ok {
            lemma_required_absent_fails(a.drop_first(), b, k - 1);
        }
    } else {
        lemma_id_order(a[0].id, b[0].id, b[0].id);
        assert(k != 0) by {
            assert(b[0].id == a[0].id);
        }
        assert(!has_id(b.drop_first(), a[k].id)) by {
            if has_id(b.drop_first(), a[k].id) {
                let m = choose|m: int| 0 <= m < b.drop_first().len() && b.drop_first()[m].id == a[k].id;
                assert(b[m + 1].id == a[k].id);
            }
        }
        if spec_intersect_descriptor(a[0], b[0]) is Ok {
            lemma_required_absent_fails(a.drop_first(), b.drop_first(), k - 1);
        }
    }
}

/// A capability that either side requires but the other side does not
/// advertise always fails negotiation (never a silent drop).
pub proof fn lemma_required_missing_fails(
    a: Seq<DescriptorView>,
    b: Seq<DescriptorView>,
    reg: RegistryView,
    pol: PolicyView,
    k: int,
)
    requires
        set_wf(a),
        set_wf(b),
        0 <= k < a.len(),
        a[k].requirement == CapabilityRequirement::Required,
        !has_id(b, a[k].id),
    ensures
        spec_negotiate(a, b, reg, pol) is Err,
        spec_negotiate(b, a, reg, pol) is Err,
{
    lemma_required_absent_fails(a, b, k);
    lemma_intersect_all_symmetric(a, b);
}

/// Whether `v` lies in the closed range `lo..=hi`.
pub open spec fn in_range_u32(v: u32, lo: u32, hi: u32) -> bool {
    lo <= v <= hi
}

/// Combined parameters are the tightest both sides allow: a limit is the
/// smaller of the two; a range is exactly the overlap of the two ranges
/// (every value in both, and none else), and there is none where they do
/// not overlap; a bitset holds exactly the bits both hold; byte parameters
/// combine only when equal; different shapes never combine.
pub proof fn lemma_combine_is_meet(a: ParamsView, b: ParamsView)
    ensures
        match (a, b) {
            (ParamsView::Empty, ParamsView::Empty) => spec_combine_parameters(a, b) == Some(ParamsView::Empty),
            (ParamsView::U32(x), ParamsView::U32(y)) => match spec_combine_parameters(a, b) {
                Some(ParamsView::U32(z)) => z <= x && z <= y && (z == x || z == y),
                _ => false,
            },
            (ParamsView::U64(x), ParamsView::U64(y)) => match spec_combine_parameters(a, b) {
                Some(ParamsView::U64(z)) => z <= x && z <= y && (z == x || z == y),
                _ => false,
            },
            (ParamsView::RangeU32 { min: a_min, max: a_max }, ParamsView::RangeU32 { min: b_min, max: b_max }) => match spec_combine_parameters(a, b) {
                Some(ParamsView::RangeU32 { min, max }) => min <= max && forall|v: u32|
                    #[trigger] in_range_u32(v, min, max) <==> (in_range_u32(v, a_min, a_max) && in_range_u32(v, b_min, b_max)),
                None => forall|v: u32| !(#[trigger] in_range_u32(v, a_min, a_max) && in_range_u32(v, b_min, b_max)),
                _ => false,
            },
            (ParamsView::BitSet(x), ParamsView::BitSet(y)) => match spec_combine_parameters(a, b) {
                Some(ParamsView::BitSet(z)) => z & x == z && z & y == z && forall|w: u64|
                    (#[trigger] (w & x) == w && w & y == w) ==> w & z == w,
                _ => false,
            },
            (ParamsView::Bytes(x), ParamsView::Bytes(y)) => if x == y {
                spec_combine_parameters(a, b) == Some(ParamsView::Bytes(x))
            } else {
                spec_combine_parameters(a, b) is None
            },
            _ => spec_combine_parameters(a, b) is None,
        },
{
    match (a, b) {
        (ParamsView::RangeU32 { min: a_min, max: a_max }, ParamsView::RangeU32 { min: b_min, max: b_max }) => {
            let lo = max_u32(a_min, b_min);
            let hi = min_u32(a_max, b_max);
            if lo > hi {
                assert forall|v: u32| !(#[trigger] in_range_u32(v, a_min, a_max) && in_range_u32(v, b_min, b_max)) by {}
            }
        },
        (ParamsView::BitSet(x), ParamsView::BitSet(y)) => {
            let z = x & y;
            assert(z & x == z && z & y == z) by (bit_vector)
                requires
                    z == x & y,
            ;
            assert forall|w: u64| (#[trigger] (w & x) == w && w & y == w) implies w & z == w by {
                assert((w & x) == w && (w & y) == w ==> (w & (x & y)) == w) by (bit_vector);
            }
        },
        _ => {},
    }
}

/// One capability advertised by both sides: a result keeps the id, is
/// required exactly when either side required it, runs on the common
/// major with the lower minor, and carries the combined parameters. It is
/// dropped only when neither side required it and the versions or the
/// parameters do not fit; when either side required it, a major mismatch
/// is a version mismatch and unfit parameters are malformed.
pub proof fn lemma_intersect_descriptor_law(l: DescriptorView, r: DescriptorView)
    ensures
        match spec_intersect_descriptor(l, r) {
            Ok(Some(d)) => {
                &&& d.id == l.id
                &&& (d.requirement == CapabilityRequirement::Required <==> (l.requirement
                    == CapabilityRequirement::Required || r.requirement == CapabilityRequirement::Required))
                &&& d.version.major == l.version.major && d.version.major == r.version.major
                &&& d.version.minor <= l.version.minor && d.version.minor <= r.version.minor
                &&& (d.version.minor == l.version.minor || d.version.minor == r.version.minor)
                &&& spec_combine_parameters(l.parameters, r.parameters) == Some(d.parameters)
            },
            Ok(None) => {
                &&& l.requirement != CapabilityRequirement::Required
                &&& r.requirement != CapabilityRequirement::Required
                &&& (l.version.major != r.version.major || spec_combine_parameters(l.parameters, r.parameters) is None)
            },
            Err(e) => {
                &&& (l.requirement == CapabilityRequirement::Required || r.requirement
                    == CapabilityRequirement::Required)
                &&& l.version.major != r.version.major ==> e == CapabilityNegotiationError::VersionMismatch(l.id)
                &&& l.version.major == r.version.major ==> e == CapabilityNegotiationError::Malformed
                    && spec_combine_parameters(l.parameters, r.parameters) is None
            },
        },
{
}

} // verus!
