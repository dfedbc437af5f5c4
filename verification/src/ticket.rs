//! Tickets and derived identifiers: the text form of a ticket (a prefix,
//! then the payload in lowercase unpadded base32), a room's gossip topic
//! and metadata namespace from its name (ignoring case and surrounding
//! space), and a direct conversation's namespace from both endpoints (in
//! either order).
use vstd::prelude::*;
use crate::radix::{base32_nopad, base32_nopad_decoded, lemma_base32_nopad_round_trip, lemma_base32_nopad_symbols};
use vstd::utf8::encode_utf8;
use crate::capability::transcript::{lex_le, lex_le_exec};
use crate::digest::{blake3_digest, spec_blake3};
use vstd::string::{StrSliceExecFns, StringExecFns};
use crate::text::{
    ascii_lowercase, ascii_uppercase, is_ascii_alnum, is_ascii_chars, lemma_ascii_utf8_len, spec_to_lowercase,
    spec_to_uppercase, spec_trim, to_lowercase, to_uppercase, trim,
};
use crate::util::str_eq;
use crate::util::{append_bytes, copy_bytes};

verus! {

/// Prefix of an endpoint ticket ("messenger ticket, version 1").
pub const TICKET_PREFIX: &'static str = "mtkt1";

/// Prefix of a room ticket ("messenger room ticket, version 1").
pub const ROOM_TICKET_PREFIX: &'static str = "mrtk1";

/// Why text is not a ticket.
#[derive(Debug, Clone, Copy, PartialEq, Eq, Structural)]
pub enum TicketError {
    /// It does not start with the expected prefix.
    NotATicket,
    /// The part after the prefix is not base32.
    Malformed,
}

/// Calls `data_encoding::BASE32_NOPAD.encode`. Trusted: the result is the
/// unpadded base32 of the input (RFC 4648, alphabet `A`–`Z`, `2`–`7`), as
/// the crate documents for this encoding. The crate documents a possible
/// panic for inputs over `usize::MAX / 512` bytes, which `requires` leaves
/// out.
#[verifier::external_body]
fn base32_nopad_encode(data: &[u8]) -> (r: String)
    requires
        data@.len() <= usize::MAX / 512,
    ensures
        r@ == base32_nopad(data@),
{
    data_encoding::BASE32_NOPAD.encode(data)
}

/// Calls `data_encoding::BASE32_NOPAD.decode`. Trusted: the crate
/// documents this encoding as canonical (it accepts exactly the outputs of
/// its encoder) and correct (decoding an encoding gives the bytes back), so
/// it succeeds exactly on the encoding of some bytes and gives those bytes.
/// The crate asserts inputs of at most `usize::MAX / 8` bytes, which
/// `requires` keeps to.
#[verifier::external_body]
fn base32_nopad_decode(data: &[u8]) -> (r: Option<Vec<u8>>)
    requires
        data@.len() <= usize::MAX / 8,
    ensures
        r matches Some(b) ==> base32_nopad_decoded(data@) == Some(b@),
        r is None ==> base32_nopad_decoded(data@) is None,
{
    data_encoding::BASE32_NOPAD.decode(data).ok()
}

/// The text of a ticket: the prefix, then the payload in lowercase base32.
pub open spec fn spec_ticket_text(prefix: Seq<char>, payload: Seq<u8>) -> Seq<char> {
    prefix + ascii_lowercase(base32_nopad(payload))
}

/// A prefix that ticket text can start with: ASCII letters and digits,
/// at least one.
pub open spec fn is_ticket_prefix(prefix: Seq<char>) -> bool {
    prefix.len() > 0 && forall|i: int| 0 <= i < prefix.len() ==> is_ascii_alnum(#[trigger] prefix[i])
}

/// What ticket text is made of: it starts and ends with an ASCII letter or
/// digit, the prefix comes first, and uppercasing the rest gives the base32
/// back, which decodes to the payload.
proof fn lemma_ticket_text_shape(prefix: Seq<char>, payload: Seq<u8>)
    requires
        is_ticket_prefix(prefix),
        payload.len() <= usize::MAX / 512,
    ensures
        ({
            let t = spec_ticket_text(prefix, payload);
            let rest = t.skip(prefix.len() as int);
            &&& t.len() > 0 && is_ascii_alnum(t[0]) && is_ascii_alnum(t.last())
            &&& t.len() >= prefix.len() && t.take(prefix.len() as int) == prefix
            &&& rest == ascii_lowercase(base32_nopad(payload))
            &&& is_ascii_chars(rest)
            &&& ascii_uppercase(rest) == base32_nopad(payload)
            &&& encode_utf8(base32_nopad(payload)).len() <= usize::MAX / 8
            &&& base32_nopad_decoded(encode_utf8(base32_nopad(payload))) == Some(payload)
        }),
{
    let b = base32_nopad(payload);
    let low = ascii_lowercase(b);
    let t = spec_ticket_text(prefix, payload);
    lemma_base32_nopad_symbols(payload);
    lemma_base32_nopad_round_trip(payload);
    assert(t.skip(prefix.len() as int) =~= low);
    assert(t.take(prefix.len() as int) =~= prefix);
    assert forall|i: int| 0 <= i < low.len() implies (#[trigger] low[i] as u32) < 128 && is_ascii_alnum(low[i]) by {
        let c = b[i] as u32;
        assert((65 <= c <= 90) || (50 <= c <= 55));
    }
    assert(ascii_uppercase(low) =~= b) by {
        assert forall|i: int| 0 <= i < b.len() implies #[trigger] ascii_uppercase(low)[i] == b[i] by {
            let c = b[i] as u32;
            assert((65 <= c <= 90) || (50 <= c <= 55));
        }
    }
    assert(t[0] == prefix[0]);
    if low.len() > 0 {
        assert(t.last() == low[low.len() - 1]);
    } else {
        assert(t.last() == prefix[prefix.len() - 1]);
    }
    assert forall|i: int| 0 <= i < b.len() implies (#[trigger] b[i] as u32) < 128 by {
        let c = b[i] as u32;
        assert((65 <= c <= 90) || (50 <= c <= 55));
    }
    lemma_ascii_utf8_len(b);
    assert(b.len() == (8 * payload.len() + 4) / 5);
}

/// What ticket text decodes to: surrounding white space is ignored, the
/// prefix must match, and the rest is base32 in either case. Text too long
/// for the decoder (over `usize::MAX / 8` bytes) is malformed.
pub open spec fn spec_decode_ticket_text(prefix: Seq<char>, ticket: Seq<char>) -> Result<Seq<u8>, TicketError> {
    let t = spec_trim(ticket);
    if t.len() < prefix.len() || t.take(prefix.len() as int) != prefix {
        Err(TicketError::NotATicket)
    } else {
        let rest = encode_utf8(spec_to_uppercase(t.skip(prefix.len() as int)));
        if rest.len() > usize::MAX / 8 {
            Err(TicketError::Malformed)
        } else {
            match base32_nopad_decoded(rest) {
                Some(b) => Ok(b),
                None => Err(TicketError::Malformed),
            }
        }
    }
}

/// Ticket text for a payload (an encoded endpoint address or room ticket).
pub fn encode_ticket_text(prefix: &str, payload: &[u8]) -> (r: String)
    requires
        payload@.len() <= usize::MAX / 512,
    ensures
        r@ == spec_ticket_text(prefix@, payload@),
{
    let encoded = base32_nopad_encode(payload);
    proof {
        lemma_base32_nopad_symbols(payload@);
        assert forall|i: int| 0 <= i < encoded@.len() implies (#[trigger] encoded@[i] as u32) < 128 by {
            let c = encoded@[i] as u32;
            assert((65 <= c <= 90) || (50 <= c <= 55));
        }
    }
    let lowered = to_lowercase(encoded.as_str());
    String::from_str(prefix).concat(lowered.as_str())
}

/// The payload of ticket text.
pub fn decode_ticket_text(prefix: &str, ticket: &str) -> (r: Result<Vec<u8>, TicketError>)
    ensures
        match r {
            Ok(b) => spec_decode_ticket_text(prefix@, ticket@) == Ok::<Seq<u8>, TicketError>(b@),
            Err(e) => spec_decode_ticket_text(prefix@, ticket@) == Err::<Seq<u8>, TicketError>(e),
        },
        forall|payload: Seq<u8>|
            is_ticket_prefix(prefix@) && payload.len() <= usize::MAX / 512 && #[trigger] spec_ticket_text(prefix@, payload)
                == ticket@ ==> (r matches Ok(b) && b@ == payload),
{
    let ghost made = exists|p: Seq<u8>|
        is_ticket_prefix(prefix@) && p.len() <= usize::MAX / 512 && #[trigger] spec_ticket_text(prefix@, p) == ticket@;
    let ghost p = choose|p: Seq<u8>|
        is_ticket_prefix(prefix@) && p.len() <= usize::MAX / 512 && #[trigger] spec_ticket_text(prefix@, p) == ticket@;
    proof {
        if made {
            lemma_ticket_text_shape(prefix@, p);
            assert forall|q: Seq<u8>|
                is_ticket_prefix(prefix@) && q.len() <= usize::MAX / 512 && #[trigger] spec_ticket_text(prefix@, q)
                    == ticket@ implies q == p by {
                lemma_ticket_text_shape(prefix@, q);
                crate::radix::lemma_base32_nopad_injective(q, p);
            }
        }
    }
    let t = trim(ticket);
    let plen = prefix.unicode_len();
    let tlen = t.unicode_len();
    if tlen < plen {
        return Err(TicketError::NotATicket);
    }
    let head = t.substring_char(0, plen);
    proof {
        assert(head@ =~= t@.take(plen as int));
    }
    if !str_eq(head, prefix) {
        return Err(TicketError::NotATicket);
    }
    let rest = t.substring_char(plen, tlen);
    proof {
        assert(rest@ =~= t@.skip(plen as int));
    }
    let upper = to_uppercase(rest);
    let bytes = upper.as_str().as_bytes();
    if bytes.len() > usize::MAX / 8 {
        return Err(TicketError::Malformed);
    }
    match base32_nopad_decode(bytes) {
        Some(b) => Ok(b),
        None => Err(TicketError::Malformed),
    }
}

/// A room name with case and surrounding white space normalised away.
pub open spec fn normalized_room(name: Seq<char>) -> Seq<u8> {
    encode_utf8(spec_to_lowercase(spec_trim(name)))
}

/// The gossip topic of a room.
pub fn topic_for_room(name: &str) -> (r: [u8; 32])
    ensures
        r@ == spec_blake3(normalized_room(name@)),
{
    let lowered = to_lowercase(trim(name));
    blake3_digest(lowered.as_str().as_bytes())
}

/// The secret of a room's metadata namespace.
pub fn namespace_secret_for_room(name: &str) -> (r: [u8; 32])
    ensures
        r@ == spec_blake3(encode_utf8("iroh-messenger/room-meta/v1/"@) + normalized_room(name@)),
{
    let lowered = to_lowercase(trim(name));
    let mut input = copy_bytes("iroh-messenger/room-meta/v1/".as_bytes());
    append_bytes(&mut input, lowered.as_str().as_bytes());
    blake3_digest(input.as_slice())
}

/// The secret of a direct conversation's namespace: the two endpoint ids
/// in byte order, so both sides derive the same one.
pub open spec fn spec_dm_secret(a: Seq<u8>, b: Seq<u8>) -> Seq<u8> {
    let (lo, hi) = if lex_le(a, b) {
        (a, b)
    } else {
        (b, a)
    };
    spec_blake3(encode_utf8("iroh-messenger/dm-meta/v1/"@) + lo + hi)
}

pub fn namespace_secret_for_dm(a: [u8; 32], b: [u8; 32]) -> (r: [u8; 32])
    ensures
        r@ == spec_dm_secret(a@, b@),
{
    let a_first = lex_le_exec(a.as_slice(), b.as_slice());
    let (lo, hi) = if a_first {
        (a, b)
    } else {
        (b, a)
    };
    let mut input = copy_bytes("iroh-messenger/dm-meta/v1/".as_bytes());
    append_bytes(&mut input, lo.as_slice());
    append_bytes(&mut input, hi.as_slice());
    blake3_digest(input.as_slice())
}

/// Both endpoints of a direct conversation derive the same namespace.
pub proof fn lemma_dm_secret_symmetric(a: Seq<u8>, b: Seq<u8>)
    ensures
        spec_dm_secret(a, b) == spec_dm_secret(b, a),
{
    crate::capability::transcript::lemma_lex_order(a, b);
}

} // verus!
