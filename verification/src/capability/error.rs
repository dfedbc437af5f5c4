//! The negotiation error model.
use vstd::prelude::*;
use crate::capability::id::CapabilityId;

verus! {

/// Why a capability negotiation failed.
#[derive(Debug, Clone, Copy, PartialEq, Eq, Structural)]
pub enum CapabilityNegotiationError {
    /// An advertisement is malformed (parameter shape mismatch, or a
    /// required capability whose parameters cannot be combined).
    Malformed,
    UnsupportedCore,
    /// A required capability is unsupported or unknown.
    MissingRequired(CapabilityId),
    /// A required capability was advertised with incompatible majors.
    VersionMismatch(CapabilityId),
    /// Local policy disabled a required capability.
    SecurityPolicy(CapabilityId),
    /// An advertised capability's declared prerequisite is not advertised.
    DependencyViolation { capability: CapabilityId, missing: CapabilityId },
    Conflict(CapabilityId, CapabilityId),
    LimitExceeded,
    DowngradeSuspected,
    /// The two peers' transcript hashes differ.
    TranscriptMismatch,
    Cancelled,
}

} // verus!
