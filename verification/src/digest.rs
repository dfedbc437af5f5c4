//! Content hashing through the BLAKE3 crate.
use vstd::prelude::*;

verus! {

/// The BLAKE3 digest of a byte string (what `blake3::hash` computes).
pub uninterp spec fn spec_blake3(data: Seq<u8>) -> Seq<u8>;

/// Calls `blake3::hash` and returns its 32-byte digest. Trusted: the
/// digest is taken to be a function of the input bytes alone, named
/// `spec_blake3`; nothing about the hash function's internals is stated.
#[verifier::external_body]
pub(crate) fn blake3_digest(data: &[u8]) -> (r: [u8; 32])
    ensures
        r@ == spec_blake3(data@),
{
    *blake3::hash(data).as_bytes()
}

} // verus!
