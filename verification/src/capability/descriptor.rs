//! Capability descriptors: requirement, lifetime, direction, typed
//! parameters and the bounded byte / bitset parameter shapes.
use vstd::prelude::*;
use crate::capability::id::CapabilityId;
use crate::capability::version::CapabilityVersion;
use crate::util::copy_bytes;

verus! {

/// Whether a peer needs a capability (an unknown required capability
/// fails negotiation; an unknown optional one is ignored).
#[derive(Debug, Clone, Copy, PartialEq, Eq, Hash, Structural)]
pub enum CapabilityRequirement {
    Required,
    Optional,
}

/// How long a negotiated capability stays valid.
#[derive(Debug, Clone, Copy, PartialEq, Eq, Hash, Structural)]
pub enum CapabilityLifetime {
    IdentityBound,
    SessionBound,
    Dynamic,
}

/// Which direction a capability applies to.
#[derive(Debug, Clone, Copy, PartialEq, Eq, Hash, Structural)]
pub enum CapabilityDirection {
    Send,
    Receive,
    Both,
}

/// Ceiling for a byte-valued capability parameter.
pub const MAX_PARAMETER_BYTES: usize = 256;

/// A byte parameter of at most `MAX_PARAMETER_BYTES` bytes; oversized
/// input is rejected at construction, never truncated.
#[derive(Debug, PartialEq, Eq, Hash)]
pub struct BoundedBytes(Vec<u8>);

/// Rejection of an oversized byte parameter.
#[derive(Debug, Clone, Copy, PartialEq, Eq, Structural)]
pub enum BoundedBytesError {
    TooLarge { len: usize, max: usize },
}

impl View for BoundedBytes {
    type V = Seq<u8>;

    closed spec fn view(&self) -> Seq<u8> {
        self.0@
    }
}

impl BoundedBytes {
    #[verifier::type_invariant]
    spec fn bounded(self) -> bool {
        self.0@.len() <= MAX_PARAMETER_BYTES
    }

    pub fn new(bytes: Vec<u8>) -> (r: Result<Self, BoundedBytesError>)
        ensures
            bytes@.len() <= MAX_PARAMETER_BYTES ==> (r matches Ok(b) && b@ == bytes@),
            bytes@.len() > MAX_PARAMETER_BYTES ==> r == Err::<Self, BoundedBytesError>(
                BoundedBytesError::TooLarge { len: bytes@.len() as usize, max: MAX_PARAMETER_BYTES },
            ),
    {
        if bytes.len() > MAX_PARAMETER_BYTES {
            return Err(BoundedBytesError::TooLarge { len: bytes.len(), max: MAX_PARAMETER_BYTES });
        }
        Ok(BoundedBytes(bytes))
    }

    pub fn as_slice(&self) -> (r: &[u8])
        ensures
            r@ == self@,
            r@.len() <= MAX_PARAMETER_BYTES,
    {
        proof {
            use_type_invariant(self);
        }
        self.0.as_slice()
    }

    /// An independent copy holding the same bytes.
    pub fn duplicate(&self) -> (r: Self)
        ensures
            r@ == self@,
    {
        proof {
            use_type_invariant(self);
        }
        BoundedBytes(copy_bytes(self.0.as_slice()))
    }
}

impl Clone for BoundedBytes {
    fn clone(&self) -> Self {
        self.duplicate()
    }
}

/// A 64-slot boolean flag group.
#[derive(Debug, Clone, Copy, PartialEq, Eq, Hash, Structural)]
pub struct CapabilityBits(pub u64);

/// The mask selecting flag `bit` (bits wrap modulo 64).
pub open spec fn bit_mask(bit: u8) -> u64 {
    (1u64 << ((bit & 63u8) as u64)) as u64
}

impl CapabilityBits {
    /// The flag group with no flag set.
    pub fn empty() -> (r: Self)
        ensures
            r.0 == 0,
    {
        CapabilityBits(0)
    }

    pub fn with_bit(self, bit: u8) -> (r: Self)
        ensures
            r.0 == self.0 | bit_mask(bit),
    {
        assert(bit & 63u8 < 64u8) by (bit_vector);
        let shift: u32 = (bit & 63u8) as u32;
        assert((1u64 << (shift as u64)) == (1u64 << ((bit & 63u8) as u64))) by {
            assert(shift as u64 == (bit & 63u8) as u64);
        }
        CapabilityBits(self.0 | (1u64 << shift))
    }

    pub fn has_bit(self, bit: u8) -> (r: bool)
        ensures
            r == (self.0 & bit_mask(bit) != 0),
    {
        assert(bit & 63u8 < 64u8) by (bit_vector);
        let shift: u32 = (bit & 63u8) as u32;
        assert((1u64 << (shift as u64)) == (1u64 << ((bit & 63u8) as u64))) by {
            assert(shift as u64 == (bit & 63u8) as u64);
        }
        (self.0 & (1u64 << shift)) != 0
    }

    /// Flag-by-flag boolean intersection.
    pub fn intersect(self, other: Self) -> (r: Self)
        ensures
            r.0 == self.0 & other.0,
    {
        CapabilityBits(self.0 & other.0)
    }
}

/// Setting a flag makes it present, and leaves every other flag as it was.
pub proof fn lemma_with_bit_sets(x: u64, bit: u8, other: u8)
    ensures
        (x | bit_mask(bit)) & bit_mask(bit) != 0,
        (bit & 63u8) != (other & 63u8) ==> (((x | bit_mask(bit)) & bit_mask(other) != 0) == (x & bit_mask(other) != 0)),
{
    let a = (bit & 63u8) as u64;
    let b = (other & 63u8) as u64;
    assert(a < 64 && b < 64) by (bit_vector)
        requires a == (bit & 63u8) as u64, b == (other & 63u8) as u64;
    assert((x | (1u64 << a)) & (1u64 << a) != 0) by (bit_vector)
        requires a < 64;
    assert(a != b ==> (((x | (1u64 << a)) & (1u64 << b) != 0) == (x & (1u64 << b) != 0))) by (bit_vector)
        requires a < 64, b < 64;
}

/// A flag is present in an intersection exactly when it is present on both sides.
pub proof fn lemma_intersect_bits(x: u64, y: u64, bit: u8)
    ensures
        ((x & y) & bit_mask(bit) != 0) == ((x & bit_mask(bit) != 0) && (y & bit_mask(bit) != 0)),
{
    let a = (bit & 63u8) as u64;
    assert(a < 64) by (bit_vector)
        requires a == (bit & 63u8) as u64;
    assert(((x & y) & (1u64 << a) != 0) == ((x & (1u64 << a) != 0) && (y & (1u64 << a) != 0))) by (bit_vector)
        requires a < 64;
}

/// Every shape a capability parameter can take (`Empty`: no parameter).
#[derive(Debug, Clone, PartialEq, Eq)]
pub enum CapabilityParameters {
    Empty,
    U32(u32),
    U64(u64),
    RangeU32 { min: u32, max: u32 },
    BitSet(CapabilityBits),
    Bytes(BoundedBytes),
}

/// Mathematical form of a parameter (byte parameters as sequences).
pub enum ParamsView {
    Empty,
    U32(u32),
    U64(u64),
    RangeU32 { min: u32, max: u32 },
    BitSet(u64),
    Bytes(Seq<u8>),
}

impl View for CapabilityParameters {
    type V = ParamsView;

    open spec fn view(&self) -> ParamsView {
        match self {
            CapabilityParameters::Empty => ParamsView::Empty,
            CapabilityParameters::U32(v) => ParamsView::U32(*v),
            CapabilityParameters::U64(v) => ParamsView::U64(*v),
            CapabilityParameters::RangeU32 { min, max } => ParamsView::RangeU32 { min: *min, max: *max },
            CapabilityParameters::BitSet(b) => ParamsView::BitSet(b.0),
            CapabilityParameters::Bytes(b) => ParamsView::Bytes(b@),
        }
    }
}

impl CapabilityParameters {
    /// An independent copy with the same view.
    pub fn duplicate(&self) -> (r: Self)
        ensures
            r@ == self@,
    {
        match self {
            CapabilityParameters::Empty => CapabilityParameters::Empty,
            CapabilityParameters::U32(v) => CapabilityParameters::U32(*v),
            CapabilityParameters::U64(v) => CapabilityParameters::U64(*v),
            CapabilityParameters::RangeU32 { min, max } => CapabilityParameters::RangeU32 { min: *min, max: *max },
            CapabilityParameters::BitSet(b) => CapabilityParameters::BitSet(*b),
            CapabilityParameters::Bytes(b) => CapabilityParameters::Bytes(b.duplicate()),
        }
    }
}

/// One advertised capability.
#[derive(Debug, Clone, PartialEq, Eq)]
pub struct CapabilityDescriptor {
    pub id: CapabilityId,
    pub version: CapabilityVersion,
    pub requirement: CapabilityRequirement,
    pub parameters: CapabilityParameters,
}

/// Mathematical form of a descriptor.
pub struct DescriptorView {
    pub id: CapabilityId,
    pub version: CapabilityVersion,
    pub requirement: CapabilityRequirement,
    pub parameters: ParamsView,
}

impl View for CapabilityDescriptor {
    type V = DescriptorView;

    open spec fn view(&self) -> DescriptorView {
        DescriptorView {
            id: self.id,
            version: self.version,
            requirement: self.requirement,
            parameters: self.parameters@,
        }
    }
}

impl CapabilityDescriptor {
    pub fn new(
        id: CapabilityId,
        version: CapabilityVersion,
        requirement: CapabilityRequirement,
        parameters: CapabilityParameters,
    ) -> (r: Self)
        ensures
            r.id == id,
            r.version == version,
            r.requirement == requirement,
            r.parameters == parameters,
    {
        CapabilityDescriptor { id, version, requirement, parameters }
    }

    /// An independent copy with the same view.
    pub fn duplicate(&self) -> (r: Self)
        ensures
            r@ == self@,
    {
        CapabilityDescriptor {
            id: self.id,
            version: self.version,
            requirement: self.requirement,
            parameters: self.parameters.duplicate(),
        }
    }
}

} // verus!
