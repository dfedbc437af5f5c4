//! The username registry's keys and records: a claim maps a lowercased,
//! trimmed username to the claiming endpoint and a ticket to reach it.
use vstd::prelude::*;
use vstd::utf8::{decode_utf8, encode_utf8, valid_utf8};
use crate::protocol::frame::MAX_MESSAGE_BYTES;
use vstd::string::StrSliceExecFns;
use crate::text::{spec_to_lowercase, spec_trim, to_lowercase, trim, utf8_to_string};
use crate::util::str_eq;
use crate::util::{append_bytes, bytes_equal, copy_bytes};
use crate::varint::{WireError, lemma_varint_roundtrip, push_varint, spec_take_varint, take_varint, varint};

verus! {

/// The registry key of a username: `user/` then the username trimmed and
/// lowercased, so lookups ignore case and surrounding space.
pub fn registry_key(username: &str) -> (r: Vec<u8>)
    ensures
        r@ == encode_utf8("user/"@) + encode_utf8(spec_to_lowercase(spec_trim(username@))),
{
    let lowered = to_lowercase(trim(username));
    let mut out = copy_bytes("user/".as_bytes());
    append_bytes(&mut out, lowered.as_str().as_bytes());
    out
}

/// The username a registry key names: the key must be UTF-8 and start
/// with `user/`.
pub open spec fn spec_name_from_key(key: Seq<u8>) -> Option<Seq<char>> {
    if !valid_utf8(key) {
        None
    } else {
        let s = decode_utf8(key);
        if s.len() >= 5 && s.take(5) == "user/"@ {
            Some(s.skip(5))
        } else {
            None
        }
    }
}

/// The username in a registry key, for listing names by prefix.
pub fn name_from_key(key: &[u8]) -> (r: Option<String>)
    ensures
        match r {
            Some(n) => spec_name_from_key(key@) == Some(n@),
            None => spec_name_from_key(key@) is None,
        },
{
    let s = match utf8_to_string(key) {
        Some(s) => s,
        None => {
            return None;
        },
    };
    let st = s.as_str();
    let n = st.unicode_len();
    if n < 5 {
        return None;
    }
    let head = st.substring_char(0, 5);
    proof {
        assert(head@ =~= st@.take(5));
    }
    if !str_eq(head, "user/") {
        return None;
    }
    let rest = st.substring_char(5, n);
    proof {
        assert(rest@ =~= st@.skip(5));
    }
    Some(rest.to_owned())
}

proof fn lemma_encode_utf8_concat(a: Seq<char>, b: Seq<char>)
    ensures
        encode_utf8(a + b) == encode_utf8(a) + encode_utf8(b),
    decreases a.len(),
{
    if a.len() == 0 {
        assert(a + b =~= b);
        assert(encode_utf8(a) =~= Seq::<u8>::empty());
        assert(encode_utf8(a) + encode_utf8(b) =~= encode_utf8(b));
    } else {
        lemma_encode_utf8_concat(a.drop_first(), b);
        assert((a + b).drop_first() =~= a.drop_first() + b);
        assert((a + b)[0] == a[0]);
        assert(encode_utf8(a + b) =~= encode_utf8(a) + encode_utf8(b));
    }
}

/// A registry key reads back as the normalised username it was made from.
pub proof fn lemma_key_names_user(username: Seq<char>)
    ensures
        spec_name_from_key(encode_utf8("user/"@) + encode_utf8(spec_to_lowercase(spec_trim(username))))
            == Some(spec_to_lowercase(spec_trim(username))),
{
    let x = spec_to_lowercase(spec_trim(username));
    let p = "user/"@;
    reveal_strlit("user/");
    lemma_encode_utf8_concat(p, x);
    vstd::utf8::encode_utf8_valid_utf8(p + x);
    vstd::utf8::encode_utf8_decode_utf8(p + x);
    assert((p + x).take(5) =~= p);
    assert((p + x).skip(5) =~= x);
}

/// One username claim.
#[derive(Debug, Clone)]
pub struct UsernameRecord {
    pub endpoint_id: [u8; 32],
    /// A ticket that reaches the claiming device directly.
    pub ticket: String,
    pub claimed_at_unix_ms: u64,
}

/// A claim as plain values.
pub struct RecordView {
    pub endpoint_id: Seq<u8>,
    pub ticket: Seq<char>,
    pub claimed_at_unix_ms: u64,
}

impl View for UsernameRecord {
    type V = RecordView;

    open spec fn view(&self) -> RecordView {
        RecordView { endpoint_id: self.endpoint_id@, ticket: self.ticket@, claimed_at_unix_ms: self.claimed_at_unix_ms }
    }
}

/// Why stored bytes are not a claim.
#[derive(Debug, Clone, Copy, PartialEq, Eq, Structural)]
pub enum RecordError {
    /// Over the message size cap.
    TooLarge,
    /// Truncated, or a malformed length or number.
    Wire(WireError),
    /// The ticket is not UTF-8.
    BadUtf8,
}

/// The outcome of trying to claim a username.
#[derive(Debug, Clone)]
pub enum ClaimOutcome {
    /// Nobody else holds the name (as far as can be seen); the claim was
    /// written.
    Claimed,
    /// Someone else holds it.
    TakenBy(UsernameRecord),
}

/// What claiming a name does given the record currently visible for it:
/// `None` means no one holds it and a new claim is written; a record of
/// another endpoint wins; our own earlier claim stands.
pub open spec fn spec_claim_outcome(existing: Option<UsernameRecord>, my_id: Seq<u8>) -> Option<ClaimOutcome> {
    match existing {
        None => None,
        Some(rec) => if rec.endpoint_id@ != my_id {
            Some(ClaimOutcome::TakenBy(rec))
        } else {
            Some(ClaimOutcome::Claimed)
        },
    }
}

/// Decides a claim from the currently visible record; `None` asks the
/// caller to write a fresh claim (after which the name is claimed).
pub fn claim_outcome(existing: Option<UsernameRecord>, my_id: &[u8; 32]) -> (r: Option<ClaimOutcome>)
    ensures
        r == spec_claim_outcome(existing, my_id@),
{
    match existing {
        None => None,
        Some(rec) => {
            if !bytes_equal(rec.endpoint_id.as_slice(), my_id.as_slice()) {
                Some(ClaimOutcome::TakenBy(rec))
            } else {
                Some(ClaimOutcome::Claimed)
            }
        },
    }
}

/// The stored form (postcard's): the endpoint id's 32 bytes, the ticket's
/// UTF-8 length as a varint and its bytes, then the claim time as a
/// varint.
pub open spec fn spec_encode_record(r: RecordView) -> Seq<u8> {
    let t = encode_utf8(r.ticket);
    r.endpoint_id + varint(t.len()) + t + varint(r.claimed_at_unix_ms as nat)
}

/// What stored bytes decode to; bytes after the record are ignored.
pub open spec fn spec_decode_record(b: Seq<u8>) -> Result<RecordView, RecordError> {
    if b.len() > MAX_MESSAGE_BYTES {
        Err(RecordError::TooLarge)
    } else if b.len() < 32 {
        Err(RecordError::Wire(WireError::UnexpectedEnd))
    } else {
        match spec_take_varint(b.skip(32)) {
            Err(e) => Err(RecordError::Wire(e)),
            Ok((len, k)) => {
                let start: int = 32 + k as int;
                if start + len > b.len() {
                    Err(RecordError::Wire(WireError::UnexpectedEnd))
                } else {
                    let t = b.subrange(start, start + len);
                    if !valid_utf8(t) {
                        Err(RecordError::BadUtf8)
                    } else {
                        match spec_take_varint(b.skip(start + len)) {
                            Err(e) => Err(RecordError::Wire(e)),
                            Ok((claimed, _)) => Ok(
                                RecordView {
                                    endpoint_id: b.subrange(0, 32),
                                    ticket: decode_utf8(t),
                                    claimed_at_unix_ms: claimed,
                                },
                            ),
                        }
                    }
                }
            },
        }
    }
}

fn copy_32(b: &[u8]) -> (r: [u8; 32])
    requires
        b@.len() == 32,
    ensures
        r@ == b@,
{
    let mut out = [0u8; 32];
    let mut i: usize = 0;
    while i < 32
        invariant
            b@.len() == 32,
            i <= 32,
            forall|j: int| 0 <= j < i ==> out@[j] == b@[j],
        decreases 32 - i,
    {
        out[i] = b[i];
        i += 1;
    }
    proof {
        assert(out@ =~= b@);
    }
    out
}

impl UsernameRecord {
    /// The stored form, which decodes back to this claim where it fits the
    /// size cap.
    pub fn encode(&self) -> (r: Vec<u8>)
        ensures
            r@ == spec_encode_record(self@),
            r@.len() <= MAX_MESSAGE_BYTES ==> spec_decode_record(r@) == Ok::<RecordView, RecordError>(self@),
    {
        let t = self.ticket.as_str().as_bytes();
        let mut out = copy_bytes(self.endpoint_id.as_slice());
        push_varint(&mut out, t.len() as u64);
        append_bytes(&mut out, t);
        push_varint(&mut out, self.claimed_at_unix_ms);
        proof {
            let v = self@;
            let tb = encode_utf8(v.ticket);
            let b = out@;
            let lv = varint(tb.len());
            let cv = varint(v.claimed_at_unix_ms as nat);
            assert(b =~= v.endpoint_id + lv + tb + cv);
            assert(b.skip(32) =~= lv + (tb + cv));
            lemma_varint_roundtrip(tb.len() as u64, tb + cv);
            let start: int = 32 + lv.len() as int;
            assert(b.subrange(start, start + tb.len()) =~= tb);
            assert(b.skip(start + tb.len()) =~= cv + Seq::<u8>::empty());
            lemma_varint_roundtrip(v.claimed_at_unix_ms, Seq::<u8>::empty());
            vstd::utf8::encode_utf8_valid_utf8(v.ticket);
            vstd::utf8::encode_utf8_decode_utf8(v.ticket);
            assert(b.subrange(0, 32) =~= v.endpoint_id);
        }
        out
    }

    /// Reads a claim from stored bytes, refusing implausibly large input.
    pub fn decode(bytes: &[u8]) -> (r: Result<Self, RecordError>)
        ensures
            match r {
                Ok(rec) => spec_decode_record(bytes@) == Ok::<RecordView, RecordError>(rec@),
                Err(e) => spec_decode_record(bytes@) == Err::<RecordView, RecordError>(e),
            },
    {
        if bytes.len() > MAX_MESSAGE_BYTES {
            return Err(RecordError::TooLarge);
        }
        if bytes.len() < 32 {
            return Err(RecordError::Wire(WireError::UnexpectedEnd));
        }
        let rest = bytes.split_at(32).1;
        let (len, k) = match take_varint(rest) {
            Ok(p) => p,
            Err(e) => {
                return Err(RecordError::Wire(e));
            },
        };
        let avail = rest.len() - k;
        if len > avail as u64 {
            return Err(RecordError::Wire(WireError::UnexpectedEnd));
        }
        let start = 32 + k;
        let end = start + len as usize;
        let ticket = match utf8_to_string(&bytes[start..end]) {
            Some(s) => s,
            None => {
                return Err(RecordError::BadUtf8);
            },
        };
        let tail = bytes.split_at(end).1;
        proof {
            assert(tail@ =~= bytes@.skip(end as int));
        }
        let (claimed, _) = match take_varint(tail) {
            Ok(p) => p,
            Err(e) => {
                return Err(RecordError::Wire(e));
            },
        };
        let endpoint_id = copy_32(&bytes[0..32]);
        Ok(UsernameRecord { endpoint_id, ticket, claimed_at_unix_ms: claimed })
    }
}

} // verus!
