//! The hash of a capability set's canonical encoding.
use vstd::prelude::*;
use crate::capability::descriptor::DescriptorView;
use crate::capability::encoding::{encode_descriptors, enc_descriptor_list};
use crate::capability::set::CapabilitySet;
use crate::digest::{blake3_digest, spec_blake3};

verus! {

/// The hash a capability set commits to: BLAKE3 over its canonical encoding.
pub open spec fn spec_set_hash(s: Seq<DescriptorView>) -> Seq<u8> {
    spec_blake3(enc_descriptor_list(s))
}

/// A 32-byte commitment to one capability set.
#[derive(Debug, Clone, Copy, PartialEq, Eq, Hash)]
pub struct CapabilitySetHash([u8; 32]);

impl View for CapabilitySetHash {
    type V = Seq<u8>;

    closed spec fn view(&self) -> Seq<u8> {
        self.0@
    }
}

impl CapabilitySetHash {
    /// Hashes the set's descriptors in canonical order, so the hash does
    /// not depend on insertion order.
    pub fn of(set: &CapabilitySet) -> (r: Self)
        ensures
            r@ == spec_set_hash(set@),
    {
        let bytes = encode_descriptors(set.as_slice());
        CapabilitySetHash(blake3_digest(bytes.as_slice()))
    }

    pub fn as_bytes(&self) -> (r: &[u8; 32])
        ensures
            r@ == self@,
    {
        &self.0
    }
}

} // verus!
