//! Postcard's encoding of strings, booleans and optional numbers, with
//! decoders that read them back from the front of a byte string.
use vstd::prelude::*;
use vstd::utf8::{decode_utf8, encode_utf8, valid_utf8};
use crate::text::utf8_to_string;
use crate::util::append_bytes;
use crate::varint::{
    WireError, lemma_varint_roundtrip, push_varint, spec_take_varint, spec_take_varint32, take_varint, take_varint32,
    varint,
};

verus! {

/// A string: its UTF-8 length, then its bytes.
pub open spec fn enc_str(s: Seq<char>) -> Seq<u8> {
    varint(encode_utf8(s).len()) + encode_utf8(s)
}

/// A boolean: one byte, 1 or 0.
pub open spec fn enc_bool(b: bool) -> Seq<u8> {
    seq![if b {
        1u8
    } else {
        0u8
    }]
}

/// An optional number: 0, or 1 and the number.
pub open spec fn enc_opt_u64(o: Option<u64>) -> Seq<u8> {
    match o {
        None => seq![0u8],
        Some(v) => seq![1u8] + varint(v as nat),
    }
}

/// A string read from the front of `b`, and the bytes it took.
pub open spec fn spec_take_str(b: Seq<u8>) -> Result<(Seq<char>, nat), WireError> {
    match spec_take_varint(b) {
        Err(e) => Err(e),
        Ok((len, k)) => if k + len > b.len() {
            Err(WireError::UnexpectedEnd)
        } else if !valid_utf8(b.subrange(k as int, k + len)) {
            Err(WireError::BadUtf8)
        } else {
            Ok((decode_utf8(b.subrange(k as int, k + len)), (k + len) as nat))
        },
    }
}

/// A boolean read from the front of `b`.
pub open spec fn spec_take_bool(b: Seq<u8>) -> Result<(bool, nat), WireError> {
    if b.len() == 0 {
        Err(WireError::UnexpectedEnd)
    } else if b[0] == 0 {
        Ok((false, 1))
    } else if b[0] == 1 {
        Ok((true, 1))
    } else {
        Err(WireError::BadBool)
    }
}

/// An optional number read from the front of `b`.
pub open spec fn spec_take_opt_u64(b: Seq<u8>) -> Result<(Option<u64>, nat), WireError> {
    if b.len() == 0 {
        Err(WireError::UnexpectedEnd)
    } else if b[0] == 0 {
        Ok((None, 1))
    } else if b[0] == 1 {
        match spec_take_varint(b.skip(1)) {
            Err(e) => Err(e),
            Ok((v, k)) => Ok((Some(v), k + 1)),
        }
    } else {
        Err(WireError::BadOption)
    }
}

/// Appends a string.
pub fn push_str(out: &mut Vec<u8>, s: &str)
    ensures
        final(out)@ == old(out)@ + enc_str(s@),
        encode_utf8(s@).len() <= usize::MAX,
{
    let bytes = s.as_bytes();
    push_varint(out, bytes.len() as u64);
    append_bytes(out, bytes);
    proof {
        assert(final(out)@ =~= old(out)@ + enc_str(s@));
    }
}

/// Appends a boolean.
pub fn push_bool(out: &mut Vec<u8>, b: bool)
    ensures
        final(out)@ == old(out)@ + enc_bool(b),
{
    out.push(if b {
        1
    } else {
        0
    });
    proof {
        assert(final(out)@ =~= old(out)@ + enc_bool(b));
    }
}

/// Appends an optional number.
pub fn push_opt_u64(out: &mut Vec<u8>, o: Option<u64>)
    ensures
        final(out)@ == old(out)@ + enc_opt_u64(o),
{
    match o {
        None => {
            out.push(0);
            proof {
                assert(final(out)@ =~= old(out)@ + enc_opt_u64(o));
            }
        },
        Some(v) => {
            out.push(1);
            push_varint(out, v);
            proof {
                assert(final(out)@ =~= old(out)@ + enc_opt_u64(o));
            }
        },
    }
}

/// Reads a string from the front of `b`.
pub fn take_str(b: &[u8]) -> (r: Result<(String, usize), WireError>)
    ensures
        match r {
            Ok((s, k)) => spec_take_str(b@) == Ok::<(Seq<char>, nat), WireError>((s@, k as nat)),
            Err(e) => spec_take_str(b@) == Err::<(Seq<char>, nat), WireError>(e),
        },
        r matches Ok((s, k)) ==> k <= b@.len(),
{
    let (len, k) = match take_varint(b) {
        Ok(p) => p,
        Err(e) => {
            return Err(e);
        },
    };
    let avail = b.len() - k;
    if len > avail as u64 {
        return Err(WireError::UnexpectedEnd);
    }
    let end = k + len as usize;
    match utf8_to_string(&b[k..end]) {
        Some(s) => Ok((s, end)),
        None => Err(WireError::BadUtf8),
    }
}

/// Reads a boolean from the front of `b`.
pub fn take_bool(b: &[u8]) -> (r: Result<(bool, usize), WireError>)
    ensures
        match r {
            Ok((v, k)) => spec_take_bool(b@) == Ok::<(bool, nat), WireError>((v, k as nat)),
            Err(e) => spec_take_bool(b@) == Err::<(bool, nat), WireError>(e),
        },
        r matches Ok((v, k)) ==> k <= b@.len(),
{
    if b.len() == 0 {
        Err(WireError::UnexpectedEnd)
    } else if b[0] == 0 {
        Ok((false, 1))
    } else if b[0] == 1 {
        Ok((true, 1))
    } else {
        Err(WireError::BadBool)
    }
}

/// Reads an optional number from the front of `b`.
pub fn take_opt_u64(b: &[u8]) -> (r: Result<(Option<u64>, usize), WireError>)
    ensures
        match r {
            Ok((v, k)) => spec_take_opt_u64(b@) == Ok::<(Option<u64>, nat), WireError>((v, k as nat)),
            Err(e) => spec_take_opt_u64(b@) == Err::<(Option<u64>, nat), WireError>(e),
        },
        r matches Ok((v, k)) ==> k <= b@.len(),
{
    if b.len() == 0 {
        return Err(WireError::UnexpectedEnd);
    }
    if b[0] == 0 {
        return Ok((None, 1));
    }
    if b[0] != 1 {
        return Err(WireError::BadOption);
    }
    let rest = b.split_at(1).1;
    proof {
        assert(rest@ =~= b@.skip(1));
    }
    match take_varint(rest) {
        Ok((v, k)) => Ok((Some(v), k + 1)),
        Err(e) => Err(e),
    }
}

/// A string reads back as written, whatever follows it.
pub proof fn lemma_str_roundtrip(s: Seq<char>, rest: Seq<u8>)
    requires
        encode_utf8(s).len() <= u64::MAX,
    ensures
        spec_take_str(enc_str(s) + rest) == Ok::<(Seq<char>, nat), WireError>((s, enc_str(s).len())),
{
    let t = encode_utf8(s);
    let v = varint(t.len());
    let b = enc_str(s) + rest;
    assert(b =~= v + (t + rest));
    lemma_varint_roundtrip(t.len() as u64, t + rest);
    assert(b.subrange(v.len() as int, v.len() + t.len() as int) =~= t);
    vstd::utf8::encode_utf8_valid_utf8(s);
    vstd::utf8::encode_utf8_decode_utf8(s);
}

/// A boolean reads back as written.
pub proof fn lemma_bool_roundtrip(x: bool, rest: Seq<u8>)
    ensures
        spec_take_bool(enc_bool(x) + rest) == Ok::<(bool, nat), WireError>((x, 1)),
{
    assert((enc_bool(x) + rest)[0] == enc_bool(x)[0]);
}

/// An optional number reads back as written.
pub proof fn lemma_opt_u64_roundtrip(o: Option<u64>, rest: Seq<u8>)
    ensures
        spec_take_opt_u64(enc_opt_u64(o) + rest) == Ok::<(Option<u64>, nat), WireError>((o, enc_opt_u64(o).len())),
{
    let b = enc_opt_u64(o) + rest;
    assert(b[0] == enc_opt_u64(o)[0]);
    if let Some(v) = o {
        assert(b.skip(1) =~= varint(v as nat) + rest);
        lemma_varint_roundtrip(v, rest);
    }
}

/// A number reads back as written.
pub proof fn lemma_u64_roundtrip(v: u64, rest: Seq<u8>)
    ensures
        spec_take_varint(varint(v as nat) + rest) == Ok::<(u64, nat), WireError>((v, varint(v as nat).len())),
{
    lemma_varint_roundtrip(v, rest);
}

/// An optional string: 0, or 1 and the string.
pub open spec fn enc_opt_str(o: Option<Seq<char>>) -> Seq<u8> {
    match o {
        None => seq![0u8],
        Some(s) => seq![1u8] + enc_str(s),
    }
}

/// An optional string read from the front of `b`.
pub open spec fn spec_take_opt_str(b: Seq<u8>) -> Result<(Option<Seq<char>>, nat), WireError> {
    if b.len() == 0 {
        Err(WireError::UnexpectedEnd)
    } else if b[0] == 0 {
        Ok((None, 1))
    } else if b[0] == 1 {
        match spec_take_str(b.skip(1)) {
            Err(e) => Err(e),
            Ok((s, k)) => Ok((Some(s), k + 1)),
        }
    } else {
        Err(WireError::BadOption)
    }
}

/// The characters of an optional string.
pub open spec fn opt_chars(o: Option<String>) -> Option<Seq<char>> {
    match o {
        Some(s) => Some(s@),
        None => None,
    }
}

/// Appends an optional string.
pub fn push_opt_str(out: &mut Vec<u8>, o: &Option<String>)
    ensures
        final(out)@ == old(out)@ + enc_opt_str(opt_chars(*o)),
        o matches Some(s) ==> encode_utf8(s@).len() <= usize::MAX,
{
    match o {
        None => {
            out.push(0);
            proof {
                assert(final(out)@ =~= old(out)@ + enc_opt_str(opt_chars(*o)));
            }
        },
        Some(s) => {
            let ghost before = out@;
            out.push(1);
            push_str(out, s.as_str());
            proof {
                assert(final(out)@ =~= before + enc_opt_str(opt_chars(*o)));
            }
        },
    }
}

/// Reads an optional string from the front of `b`.
pub fn take_opt_str(b: &[u8]) -> (r: Result<(Option<String>, usize), WireError>)
    ensures
        match r {
            Ok((v, k)) => spec_take_opt_str(b@) == Ok::<(Option<Seq<char>>, nat), WireError>((opt_chars(v), k as nat))
                && k <= b@.len(),
            Err(e) => spec_take_opt_str(b@) == Err::<(Option<Seq<char>>, nat), WireError>(e),
        },
{
    if b.len() == 0 {
        return Err(WireError::UnexpectedEnd);
    }
    if b[0] == 0 {
        return Ok((None, 1));
    }
    if b[0] != 1 {
        return Err(WireError::BadOption);
    }
    let rest = b.split_at(1).1;
    proof {
        assert(rest@ =~= b@.skip(1));
    }
    match take_str(rest) {
        Ok((s, k)) => Ok((Some(s), k + 1)),
        Err(e) => Err(e),
    }
}

/// An optional string reads back as written.
pub proof fn lemma_opt_str_roundtrip(o: Option<Seq<char>>, rest: Seq<u8>)
    requires
        o matches Some(s) ==> encode_utf8(s).len() <= u64::MAX,
    ensures
        spec_take_opt_str(enc_opt_str(o) + rest) == Ok::<(Option<Seq<char>>, nat), WireError>(
            (o, enc_opt_str(o).len()),
        ),
{
    let b = enc_opt_str(o) + rest;
    assert(b[0] == enc_opt_str(o)[0]);
    if let Some(s) = o {
        assert(b.skip(1) =~= enc_str(s) + rest);
        lemma_str_roundtrip(s, rest);
    }
}

/// Appends 32 raw bytes (a fixed-size array is written as its bytes).
pub fn push_array32(out: &mut Vec<u8>, a: &[u8; 32])
    ensures
        final(out)@ == old(out)@ + a@,
{
    append_bytes(out, a.as_slice());
}

/// Reads 32 raw bytes from the front of `b`.
pub fn take_array32(b: &[u8]) -> (r: Result<([u8; 32], usize), WireError>)
    ensures
        match r {
            Ok((a, k)) => b@.len() >= 32 && a@ == b@.subrange(0, 32) && k == 32,
            Err(e) => b@.len() < 32 && e == WireError::UnexpectedEnd,
        },
{
    if b.len() < 32 {
        return Err(WireError::UnexpectedEnd);
    }
    let mut out = [0u8; 32];
    let mut i: usize = 0;
    while i < 32
        invariant
            b@.len() >= 32,
            i <= 32,
            forall|j: int| 0 <= j < i ==> out@[j] == b@[j],
        decreases 32 - i,
    {
        out[i] = b[i];
        i += 1;
    }
    proof {
        assert(out@ =~= b@.subrange(0, 32));
    }
    Ok((out, 32))
}

/// Opaque forms of the pieces above, for proofs about whole messages that
/// need only the read-back facts.
#[verifier::opaque]
pub open spec fn c_str(s: Seq<char>) -> Seq<u8> {
    enc_str(s)
}

#[verifier::opaque]
pub open spec fn c_u64(v: u64) -> Seq<u8> {
    varint(v as nat)
}

#[verifier::opaque]
pub open spec fn c_tag(t: nat) -> Seq<u8> {
    varint(t)
}

#[verifier::opaque]
pub open spec fn c_bool(b: bool) -> Seq<u8> {
    enc_bool(b)
}

#[verifier::opaque]
pub open spec fn c_opt(o: Option<u64>) -> Seq<u8> {
    enc_opt_u64(o)
}

#[verifier::opaque]
pub open spec fn c_take_str(b: Seq<u8>) -> Result<(Seq<char>, nat), WireError> {
    spec_take_str(b)
}

#[verifier::opaque]
pub open spec fn c_take_u64(b: Seq<u8>) -> Result<(u64, nat), WireError> {
    spec_take_varint(b)
}

#[verifier::opaque]
pub open spec fn c_take_tag(b: Seq<u8>) -> Result<(u32, nat), WireError> {
    spec_take_varint32(b)
}

#[verifier::opaque]
pub open spec fn c_take_bool(b: Seq<u8>) -> Result<(bool, nat), WireError> {
    spec_take_bool(b)
}

#[verifier::opaque]
pub open spec fn c_take_opt(b: Seq<u8>) -> Result<(Option<u64>, nat), WireError> {
    spec_take_opt_u64(b)
}

pub proof fn lemma_c_str(s: Seq<char>, rest: Seq<u8>)
    requires
        encode_utf8(s).len() <= u64::MAX,
    ensures
        c_take_str(c_str(s) + rest) == Ok::<(Seq<char>, nat), WireError>((s, c_str(s).len())),
{
    reveal(c_take_str);
    reveal(c_str);
    lemma_str_roundtrip(s, rest);
}

pub proof fn lemma_c_u64(v: u64, rest: Seq<u8>)
    ensures
        c_take_u64(c_u64(v) + rest) == Ok::<(u64, nat), WireError>((v, c_u64(v).len())),
{
    reveal(c_take_u64);
    reveal(c_u64);
    lemma_u64_roundtrip(v, rest);
}

pub proof fn lemma_c_bool(x: bool, rest: Seq<u8>)
    ensures
        c_take_bool(c_bool(x) + rest) == Ok::<(bool, nat), WireError>((x, c_bool(x).len())),
{
    reveal(c_take_bool);
    reveal(c_bool);
    lemma_bool_roundtrip(x, rest);
}

pub proof fn lemma_c_opt(o: Option<u64>, rest: Seq<u8>)
    ensures
        c_take_opt(c_opt(o) + rest) == Ok::<(Option<u64>, nat), WireError>((o, c_opt(o).len())),
{
    reveal(c_take_opt);
    reveal(c_opt);
    lemma_opt_u64_roundtrip(o, rest);
}

pub fn push_c_str(out: &mut Vec<u8>, s: &str)
    ensures
        final(out)@ == old(out)@ + c_str(s@),
        encode_utf8(s@).len() <= u64::MAX,
{
    push_str(out, s);
    proof {
        reveal(c_str);
    }
}

pub fn push_c_u64(out: &mut Vec<u8>, v: u64)
    ensures
        final(out)@ == old(out)@ + c_u64(v),
{
    push_varint(out, v);
    proof {
        reveal(c_u64);
    }
}

pub fn push_tag(out: &mut Vec<u8>, t: u32)
    ensures
        final(out)@ == old(out)@ + c_tag(t as nat),
{
    push_varint(out, t as u64);
    proof {
        reveal(c_tag);
    }
}

pub fn push_c_bool(out: &mut Vec<u8>, x: bool)
    ensures
        final(out)@ == old(out)@ + c_bool(x),
{
    push_bool(out, x);
    proof {
        reveal(c_bool);
    }
}

pub fn push_c_opt(out: &mut Vec<u8>, o: Option<u64>)
    ensures
        final(out)@ == old(out)@ + c_opt(o),
{
    push_opt_u64(out, o);
    proof {
        reveal(c_opt);
    }
}

pub fn take_c_str(b: &[u8]) -> (r: Result<(String, usize), WireError>)
    ensures
        match r {
            Ok((v, k)) => c_take_str(b@) == Ok::<(Seq<char>, nat), WireError>((v@, k as nat)) && k <= b@.len(),
            Err(e) => c_take_str(b@) == Err::<(Seq<char>, nat), WireError>(e),
        },
{
    proof {
        reveal(c_take_str);
    }
    take_str(b)
}

pub fn take_c_u64(b: &[u8]) -> (r: Result<(u64, usize), WireError>)
    ensures
        match r {
            Ok((v, k)) => c_take_u64(b@) == Ok::<(u64, nat), WireError>((v, k as nat)) && k <= b@.len(),
            Err(e) => c_take_u64(b@) == Err::<(u64, nat), WireError>(e),
        },
{
    proof {
        reveal(c_take_u64);
    }
    take_varint(b)
}

pub fn take_tag(b: &[u8]) -> (r: Result<(u32, usize), WireError>)
    ensures
        match r {
            Ok((v, k)) => c_take_tag(b@) == Ok::<(u32, nat), WireError>((v, k as nat)) && k <= b@.len(),
            Err(e) => c_take_tag(b@) == Err::<(u32, nat), WireError>(e),
        },
{
    proof {
        reveal(c_take_tag);
    }
    take_varint32(b)
}

pub fn take_c_bool(b: &[u8]) -> (r: Result<(bool, usize), WireError>)
    ensures
        match r {
            Ok((v, k)) => c_take_bool(b@) == Ok::<(bool, nat), WireError>((v, k as nat)) && k <= b@.len(),
            Err(e) => c_take_bool(b@) == Err::<(bool, nat), WireError>(e),
        },
{
    proof {
        reveal(c_take_bool);
    }
    take_bool(b)
}

pub fn take_c_opt(b: &[u8]) -> (r: Result<(Option<u64>, usize), WireError>)
    ensures
        match r {
            Ok((v, k)) => c_take_opt(b@) == Ok::<(Option<u64>, nat), WireError>((v, k as nat)) && k <= b@.len(),
            Err(e) => c_take_opt(b@) == Err::<(Option<u64>, nat), WireError>(e),
        },
{
    proof {
        reveal(c_take_opt);
    }
    take_opt_u64(b)
}

#[verifier::opaque]
pub open spec fn c_opt_str(o: Option<Seq<char>>) -> Seq<u8> {
    enc_opt_str(o)
}

#[verifier::opaque]
pub open spec fn c_take_opt_str(b: Seq<u8>) -> Result<(Option<Seq<char>>, nat), WireError> {
    spec_take_opt_str(b)
}

pub proof fn lemma_c_opt_str(o: Option<Seq<char>>, rest: Seq<u8>)
    requires
        o matches Some(s) ==> encode_utf8(s).len() <= u64::MAX,
    ensures
        c_take_opt_str(c_opt_str(o) + rest) == Ok::<(Option<Seq<char>>, nat), WireError>((o, c_opt_str(o).len())),
{
    reveal(c_take_opt_str);
    reveal(c_opt_str);
    lemma_opt_str_roundtrip(o, rest);
}

pub fn push_c_opt_str(out: &mut Vec<u8>, o: &Option<String>)
    ensures
        final(out)@ == old(out)@ + c_opt_str(opt_chars(*o)),
        o matches Some(s) ==> encode_utf8(s@).len() <= usize::MAX,
{
    push_opt_str(out, o);
    proof {
        reveal(c_opt_str);
    }
}

pub fn take_c_opt_str(b: &[u8]) -> (r: Result<(Option<String>, usize), WireError>)
    ensures
        match r {
            Ok((v, k)) => c_take_opt_str(b@) == Ok::<(Option<Seq<char>>, nat), WireError>((opt_chars(v), k as nat))
                && k <= b@.len(),
            Err(e) => c_take_opt_str(b@) == Err::<(Option<Seq<char>>, nat), WireError>(e),
        },
{
    proof {
        reveal(c_take_opt_str);
    }
    take_opt_str(b)
}

} // verus!
