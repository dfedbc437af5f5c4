//! The canonical byte encoding of capability descriptors (postcard's
//! compact format: LEB128 varints for integers and lengths, variant
//! indices for enum tags, raw bytes for byte strings), which capability
//! hashes commit to.
use vstd::prelude::*;
use crate::capability::descriptor::{CapabilityDescriptor, CapabilityParameters, CapabilityRequirement, DescriptorView, ParamsView};
use crate::capability::id::{CapabilityId, CapabilityNamespace, namespace_rank};
use crate::capability::version::CapabilityVersion;
use crate::util::append_bytes;
use crate::varint::{push_varint, varint};

verus! {

pub open spec fn enc_namespace(ns: CapabilityNamespace) -> Seq<u8> {
    match ns {
        CapabilityNamespace::Application(id) => varint(11) + varint(id.0 as nat),
        _ => varint(namespace_rank(ns) as nat),
    }
}

pub open spec fn enc_id(id: CapabilityId) -> Seq<u8> {
    enc_namespace(id.namespace) + varint(id.code as nat)
}

pub open spec fn enc_version(v: CapabilityVersion) -> Seq<u8> {
    varint(v.major as nat) + varint(v.minor as nat)
}

pub open spec fn enc_requirement(r: CapabilityRequirement) -> Seq<u8> {
    match r {
        CapabilityRequirement::Required => varint(0),
        CapabilityRequirement::Optional => varint(1),
    }
}

pub open spec fn enc_params(p: ParamsView) -> Seq<u8> {
    match p {
        ParamsView::Empty => varint(0),
        ParamsView::U32(x) => varint(1) + varint(x as nat),
        ParamsView::U64(x) => varint(2) + varint(x as nat),
        ParamsView::RangeU32 { min, max } => varint(3) + varint(min as nat) + varint(max as nat),
        ParamsView::BitSet(x) => varint(4) + varint(x as nat),
        ParamsView::Bytes(b) => varint(5) + varint(b.len()) + b,
    }
}

/// One descriptor: id, version, requirement, parameters, in field order.
pub open spec fn enc_descriptor(d: DescriptorView) -> Seq<u8> {
    enc_id(d.id) + enc_version(d.version) + enc_requirement(d.requirement) + enc_params(d.parameters)
}

pub open spec fn enc_descriptors(s: Seq<DescriptorView>) -> Seq<u8>
    decreases s.len(),
{
    if s.len() == 0 {
        Seq::empty()
    } else {
        enc_descriptors(s.drop_last()) + enc_descriptor(s.last())
    }
}

/// A whole sequence of descriptors: its length, then each descriptor.
pub open spec fn enc_descriptor_list(s: Seq<DescriptorView>) -> Seq<u8> {
    varint(s.len()) + enc_descriptors(s)
}

fn push_namespace(out: &mut Vec<u8>, ns: CapabilityNamespace)
    ensures
        final(out)@ == old(out)@ + enc_namespace(ns),
{
    let ghost o = out@;
    match ns {
        CapabilityNamespace::Application(id) => {
            push_varint(out, 11);
            push_varint(out, id.0 as u64);
            assert(out@ =~= o + enc_namespace(ns));
        },
        CapabilityNamespace::Core => push_varint(out, 0),
        CapabilityNamespace::Security => push_varint(out, 1),
        CapabilityNamespace::Transport => push_varint(out, 2),
        CapabilityNamespace::Messaging => push_varint(out, 3),
        CapabilityNamespace::Files => push_varint(out, 4),
        CapabilityNamespace::Groups => push_varint(out, 5),
        CapabilityNamespace::Presence => push_varint(out, 6),
        CapabilityNamespace::Dtn => push_varint(out, 7),
        CapabilityNamespace::Media => push_varint(out, 8),
        CapabilityNamespace::Platform => push_varint(out, 9),
        CapabilityNamespace::Resource => push_varint(out, 10),
    }
}

fn push_params(out: &mut Vec<u8>, p: &CapabilityParameters)
    ensures
        final(out)@ == old(out)@ + enc_params(p@),
{
    let ghost o = out@;
    match p {
        CapabilityParameters::Empty => {
            push_varint(out, 0);
        },
        CapabilityParameters::U32(x) => {
            push_varint(out, 1);
            push_varint(out, *x as u64);
            assert(out@ =~= o + enc_params(p@));
        },
        CapabilityParameters::U64(x) => {
            push_varint(out, 2);
            push_varint(out, *x);
            assert(out@ =~= o + enc_params(p@));
        },
        CapabilityParameters::RangeU32 { min, max } => {
            push_varint(out, 3);
            push_varint(out, *min as u64);
            push_varint(out, *max as u64);
            assert(out@ =~= o + enc_params(p@));
        },
        CapabilityParameters::BitSet(b) => {
            push_varint(out, 4);
            push_varint(out, b.0);
            assert(out@ =~= o + enc_params(p@));
        },
        CapabilityParameters::Bytes(b) => {
            let bytes = b.as_slice();
            push_varint(out, 5);
            push_varint(out, bytes.len() as u64);
            append_bytes(out, bytes);
            assert(out@ =~= o + enc_params(p@));
        },
    }
}

/// Appends the canonical encoding of one descriptor.
pub fn push_descriptor(out: &mut Vec<u8>, d: &CapabilityDescriptor)
    ensures
        final(out)@ == old(out)@ + enc_descriptor(d@),
{
    let ghost o = out@;
    push_namespace(out, d.id.namespace);
    push_varint(out, d.id.code as u64);
    push_varint(out, d.version.major as u64);
    push_varint(out, d.version.minor as u64);
    match d.requirement {
        CapabilityRequirement::Required => push_varint(out, 0),
        CapabilityRequirement::Optional => push_varint(out, 1),
    }
    push_params(out, &d.parameters);
    assert(out@ =~= o + enc_descriptor(d@));
}

/// The canonical encoding of a descriptor sequence.
pub fn encode_descriptors(ds: &[CapabilityDescriptor]) -> (r: Vec<u8>)
    ensures
        r@ == enc_descriptor_list(ds@.map_values(|d: CapabilityDescriptor| d@)),
{
    let ghost s = ds@.map_values(|d: CapabilityDescriptor| d@);
    let mut out: Vec<u8> = Vec::new();
    push_varint(&mut out, ds.len() as u64);
    let ghost head = out@;
    let mut i: usize = 0;
    proof {
        assert(s.subrange(0, 0) =~= Seq::<DescriptorView>::empty());
        assert(out@ =~= head + enc_descriptors(s.subrange(0, 0)));
    }
    while i < ds.len()
        invariant
            s == ds@.map_values(|d: CapabilityDescriptor| d@),
            head == varint(s.len()),
            i <= ds@.len(),
            out@ == head + enc_descriptors(s.subrange(0, i as int)),
        decreases ds@.len() - i,
    {
        push_descriptor(&mut out, &ds[i]);
        proof {
            let p = s.subrange(0, i + 1);
            assert(p.drop_last() =~= s.subrange(0, i as int));
            assert(p.last() == ds@[i as int]@);
            assert(out@ =~= head + enc_descriptors(p));
        }
        i += 1;
    }
    proof {
        assert(s.subrange(0, s.len() as int) =~= s);
    }
    out
}

} // verus!
