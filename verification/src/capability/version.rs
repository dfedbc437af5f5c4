//! Per-capability major/minor versioning.
use vstd::prelude::*;

verus! {

/// A capability's own version; a minor bump is backward compatible
/// within one major.
#[derive(Debug, Clone, Copy, PartialEq, Eq, PartialOrd, Ord, Hash, Structural)]
pub struct CapabilityVersion {
    pub major: u16,
    pub minor: u16,
}

/// The agreed version of two advertisements of the same capability:
/// none across a major mismatch, else the lower minor.
pub open spec fn spec_version_negotiate(a: CapabilityVersion, b: CapabilityVersion) -> Option<CapabilityVersion> {
    if a.major != b.major {
        None
    } else {
        Some(CapabilityVersion { major: a.major, minor: if a.minor <= b.minor { a.minor } else { b.minor } })
    }
}

impl CapabilityVersion {
    pub fn new(major: u16, minor: u16) -> (r: Self)
        ensures
            r.major == major,
            r.minor == minor,
    {
        CapabilityVersion { major, minor }
    }

    /// Compatible only on a matching major; the result keeps the lower minor.
    pub fn negotiate(self, remote: Self) -> (r: Option<Self>)
        ensures
            r == spec_version_negotiate(self, remote),
    {
        if self.major != remote.major {
            return None;
        }
        let minor = if self.minor <= remote.minor { self.minor } else { remote.minor };
        Some(CapabilityVersion::new(self.major, minor))
    }
}

/// Version negotiation does not depend on which side calls it.
pub proof fn lemma_version_negotiate_symmetric(a: CapabilityVersion, b: CapabilityVersion)
    ensures
        spec_version_negotiate(a, b) == spec_version_negotiate(b, a),
{
}

/// Two versions agree exactly when their majors match, and then on that
/// major with the lower of the two minors.
pub proof fn lemma_version_negotiate_lower_minor(a: CapabilityVersion, b: CapabilityVersion)
    ensures
        spec_version_negotiate(a, b) is Some <==> a.major == b.major,
        spec_version_negotiate(a, b) matches Some(v) ==> v.major == a.major && v.major == b.major && v.minor
            <= a.minor && v.minor <= b.minor && (v.minor == a.minor || v.minor == b.minor),
{
}

} // verus!
