//! Randomness from the operating system, through `rand_core` and `uuid`.
use vstd::prelude::*;
use rand_core::RngCore;

verus! {

/// Fills `buf` from `rand_core::OsRng::fill_bytes`. Trusted; the bytes
/// come from the operating system's random source, so nothing is stated
/// of their value, only that the buffer keeps its length.
#[verifier::external_body]
pub(crate) fn fill_random(buf: &mut [u8])
    ensures
        final(buf)@.len() == old(buf)@.len(),
{
    rand_core::OsRng.fill_bytes(buf)
}

/// Whether 16 bytes carry the version-4, RFC 4122 variant markers of a
/// random UUID.
pub open spec fn is_uuid_v4(b: Seq<u8>) -> bool {
    &&& b.len() == 16
    &&& b[6] & 0xf0u8 == 0x40u8
    &&& b[8] & 0xc0u8 == 0x80u8
}

/// Calls `uuid::Uuid::new_v4` and returns its 16 bytes. Trusted: the bytes
/// are random, so only the version and variant bits that `new_v4` sets
/// are stated.
#[verifier::external_body]
pub(crate) fn random_uuid_v4() -> (r: [u8; 16])
    ensures
        is_uuid_v4(r@),
{
    *uuid::Uuid::new_v4().as_bytes()
}

} // verus!
