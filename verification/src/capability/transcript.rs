//! Two-phase confirmation: a transcript hash over both peers' offers, the
//! selection and a session nonce, computed the same way whichever peer
//! calls itself local.
use vstd::prelude::*;
use crate::capability::error::CapabilityNegotiationError;
use crate::capability::hash::{CapabilitySetHash, spec_set_hash};
use crate::capability::descriptor::DescriptorView;
use crate::capability::set::CapabilitySet;
use crate::digest::{blake3_digest, spec_blake3};
use crate::random::fill_random;
use crate::util::{append_bytes, bytes_equal};

verus! {

/// A per-session handshake nonce.
#[derive(Debug, Clone, Copy, PartialEq, Eq, Hash)]
pub struct HandshakeNonce([u8; 16]);

impl View for HandshakeNonce {
    type V = Seq<u8>;

    closed spec fn view(&self) -> Seq<u8> {
        self.0@
    }
}

impl HandshakeNonce {
    /// A fresh nonce from the operating system's random source.
    pub fn generate() -> (r: Self)
        ensures
            r@.len() == 16,
    {
        let mut bytes = [0u8; 16];
        fill_random(&mut bytes);
        HandshakeNonce(bytes)
    }

    pub fn from_bytes(bytes: [u8; 16]) -> (r: Self)
        ensures
            r@ == bytes@,
    {
        HandshakeNonce(bytes)
    }

    pub fn as_bytes(&self) -> (r: &[u8; 16])
        ensures
            r@ == self@,
    {
        &self.0
    }
}

/// Lexicographic `<=` on byte strings (a proper prefix is smaller).
pub open spec fn lex_le(a: Seq<u8>, b: Seq<u8>) -> bool
    decreases a.len(),
{
    if a.len() == 0 {
        true
    } else if b.len() == 0 {
        false
    } else if a[0] != b[0] {
        a[0] < b[0]
    } else {
        lex_le(a.drop_first(), b.drop_first())
    }
}

/// `lex_le` is total and antisymmetric.
pub proof fn lemma_lex_order(a: Seq<u8>, b: Seq<u8>)
    ensures
        lex_le(a, b) || lex_le(b, a),
        lex_le(a, b) && lex_le(b, a) ==> a == b,
    decreases a.len(),
{
    if a.len() > 0 && b.len() > 0 && a[0] == b[0] {
        lemma_lex_order(a.drop_first(), b.drop_first());
        if a.drop_first() == b.drop_first() {
            assert(a =~= seq![a[0]] + a.drop_first());
            assert(b =~= seq![b[0]] + b.drop_first());
        }
    }
    if a.len() == 0 && b.len() == 0 {
        assert(a =~= b);
    }
}

pub(crate) fn lex_le_exec(a: &[u8], b: &[u8]) -> (r: bool)
    ensures
        r == lex_le(a@, b@),
{
    let mut i: usize = 0;
    proof {
        assert(a@.skip(0) =~= a@);
        assert(b@.skip(0) =~= b@);
    }
    while i < a.len() && i < b.len()
        invariant
            i <= a@.len(),
            i <= b@.len(),
            lex_le(a@, b@) == lex_le(a@.skip(i as int), b@.skip(i as int)),
        decreases a@.len() - i,
    {
        proof {
            assert(a@.skip(i as int)[0] == a@[i as int]);
            assert(b@.skip(i as int)[0] == b@[i as int]);
            assert(a@.skip(i as int).drop_first() =~= a@.skip(i + 1));
            assert(b@.skip(i as int).drop_first() =~= b@.skip(i + 1));
        }
        if a[i] != b[i] {
            return a[i] < b[i];
        }
        i += 1;
    }
    i == a.len()
}

/// The transcript hash: BLAKE3 over the two offered sets' hashes (smaller
/// first), the selection's hash and the nonce.
pub open spec fn spec_transcript_hash(
    peer_a: Seq<DescriptorView>,
    peer_b: Seq<DescriptorView>,
    selected: Seq<DescriptorView>,
    nonce: Seq<u8>,
) -> Seq<u8> {
    let ha = spec_set_hash(peer_a);
    let hb = spec_set_hash(peer_b);
    let first = if lex_le(ha, hb) { ha } else { hb };
    let second = if lex_le(ha, hb) { hb } else { ha };
    spec_blake3(first + second + spec_set_hash(selected) + nonce)
}

/// A commitment to one whole negotiation.
#[derive(Debug, Clone, Copy, PartialEq, Eq, Hash)]
pub struct NegotiationHash([u8; 32]);

impl View for NegotiationHash {
    type V = Seq<u8>;

    closed spec fn view(&self) -> Seq<u8> {
        self.0@
    }
}

impl NegotiationHash {
    /// Both peers derive the same value whichever of them is `peer_a`.
    pub fn compute(
        peer_a_offered: &CapabilitySet,
        peer_b_offered: &CapabilitySet,
        selected: &CapabilitySet,
        nonce: HandshakeNonce,
    ) -> (r: Self)
        ensures
            r@ == spec_transcript_hash(peer_a_offered@, peer_b_offered@, selected@, nonce@),
    {
        let hash_a = CapabilitySetHash::of(peer_a_offered);
        let hash_b = CapabilitySetHash::of(peer_b_offered);
        let a_first = lex_le_exec(hash_a.as_bytes().as_slice(), hash_b.as_bytes().as_slice());
        let (first, second) = if a_first {
            (hash_a, hash_b)
        } else {
            (hash_b, hash_a)
        };
        let selected_hash = CapabilitySetHash::of(selected);
        let mut input: Vec<u8> = Vec::new();
        append_bytes(&mut input, first.as_bytes().as_slice());
        append_bytes(&mut input, second.as_bytes().as_slice());
        append_bytes(&mut input, selected_hash.as_bytes().as_slice());
        append_bytes(&mut input, nonce.as_bytes().as_slice());
        proof {
            assert(input@ =~= (if a_first { hash_a@ } else { hash_b@ }) + (if a_first { hash_b@ } else { hash_a@ })
                + selected_hash@ + nonce@);
        }
        NegotiationHash(blake3_digest(input.as_slice()))
    }

    pub fn as_bytes(&self) -> (r: &[u8; 32])
        ensures
            r@ == self@,
    {
        &self.0
    }
}

/// The transcript hash does not depend on which peer calls itself local.
pub proof fn lemma_transcript_symmetric(
    a: Seq<DescriptorView>,
    b: Seq<DescriptorView>,
    selected: Seq<DescriptorView>,
    nonce: Seq<u8>,
)
    ensures
        spec_transcript_hash(a, b, selected, nonce) == spec_transcript_hash(b, a, selected, nonce),
{
    lemma_lex_order(spec_set_hash(a), spec_set_hash(b));
}

/// Both peers confirm the same negotiation: the hashes must match.
pub fn confirm(local: NegotiationHash, remote_reported: NegotiationHash) -> (r: Result<(), CapabilityNegotiationError>)
    ensures
        local@ == remote_reported@ ==> r is Ok,
        local@ != remote_reported@ ==> r == Err::<(), CapabilityNegotiationError>(
            CapabilityNegotiationError::TranscriptMismatch,
        ),
{
    if bytes_equal(local.as_bytes().as_slice(), remote_reported.as_bytes().as_slice()) {
        Ok(())
    } else {
        Err(CapabilityNegotiationError::TranscriptMismatch)
    }
}

} // verus!
