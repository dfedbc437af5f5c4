//! The adaptive-compression frame around an encoded message: one tag byte
//! (`0x00` raw, `0x01` zstd), with zstd kept only where it shrinks the
//! payload.
use vstd::prelude::*;
use crate::util::copy_bytes;

verus! {

/// Cap on a decoded (post-decompression) message, so a peer cannot make
/// us buffer unbounded memory.
pub const MAX_MESSAGE_BYTES: usize = 262144;

/// Payloads shorter than this are never compressed: the tag plus zstd's
/// header would cost more than they save.
pub const COMPRESSION_MIN_INPUT: usize = 128;

/// A fast zstd level; chat messages are latency-sensitive.
pub const ZSTD_LEVEL: i32 = 3;

/// Tag of an uncompressed frame.
pub const TAG_RAW: u8 = 0;

/// Tag of a zstd frame.
pub const TAG_ZSTD: u8 = 1;

/// Why a frame could not be opened.
#[derive(Debug, Clone, Copy, PartialEq, Eq, Structural)]
pub enum FrameError {
    /// No tag byte.
    Empty,
    /// A tag other than raw or zstd.
    UnknownTag(u8),
    /// The zstd payload did not decompress.
    Decompress,
    /// The decoded message is over `MAX_MESSAGE_BYTES`.
    TooLarge,
}

/// What `zstd::stream::encode_all` produces for `data` at `level` when it
/// succeeds.
pub uninterp spec fn spec_zstd_encode_all(data: Seq<u8>, level: i32) -> Seq<u8>;

/// What `zstd::stream::decode_all` produces for `data`: the decompressed
/// bytes, or `None` where `data` is not a zstd stream.
pub uninterp spec fn spec_zstd_decode_all(data: Seq<u8>) -> Option<Seq<u8>>;

/// Calls `zstd::stream::encode_all` on an in-memory buffer. Trusted: when
/// it succeeds the result is the named compression, and zstd being
/// lossless, decoding it gives the input back. It can also fail (the C
/// library reports allocation failures as errors), so nothing is stated of
/// when it fails.
#[verifier::external_body]
pub(crate) fn zstd_encode_all(data: &[u8], level: i32) -> (r: Option<Vec<u8>>)
    ensures
        r matches Some(c) ==> c@ == spec_zstd_encode_all(data@, level),
        r matches Some(c) ==> spec_zstd_decode_all(c@) == Some(data@),
{
    zstd::stream::encode_all(data, level).ok()
}

/// Calls `zstd::stream::decode_all` on an in-memory buffer. Trusted: a
/// success is the named decompression, and bytes that are not a zstd
/// stream never decode. A failure on a valid stream (memory) is left open.
#[verifier::external_body]
pub(crate) fn zstd_decode_all(data: &[u8]) -> (r: Option<Vec<u8>>)
    ensures
        r matches Some(p) ==> spec_zstd_decode_all(data@) == Some(p@),
        spec_zstd_decode_all(data@) is None ==> r is None,
{
    zstd::stream::decode_all(data).ok()
}

/// The frame of `raw` given what compressing it gave (`None`: not tried,
/// or it failed): raw below the threshold or where zstd did not shrink it,
/// else zstd.
pub open spec fn spec_encode_frame(raw: Seq<u8>, compressed: Option<Seq<u8>>) -> Seq<u8> {
    if raw.len() < COMPRESSION_MIN_INPUT {
        seq![TAG_RAW] + raw
    } else {
        match compressed {
            Some(c) => if c.len() < raw.len() {
                seq![TAG_ZSTD] + c
            } else {
                seq![TAG_RAW] + raw
            },
            None => seq![TAG_RAW] + raw,
        }
    }
}

/// What a frame opens to.
pub open spec fn spec_decode_frame(bytes: Seq<u8>) -> Result<Seq<u8>, FrameError> {
    if bytes.len() == 0 {
        Err(FrameError::Empty)
    } else {
        let payload = bytes.drop_first();
        let raw = if bytes[0] == TAG_RAW {
            Ok(payload)
        } else if bytes[0] == TAG_ZSTD {
            match spec_zstd_decode_all(payload) {
                Some(p) => Ok(p),
                None => Err(FrameError::Decompress),
            }
        } else {
            Err(FrameError::UnknownTag(bytes[0]))
        };
        match raw {
            Ok(p) => if p.len() > MAX_MESSAGE_BYTES {
                Err(FrameError::TooLarge)
            } else {
                Ok(p)
            },
            Err(e) => Err(e),
        }
    }
}

/// `payload` behind a one-byte tag.
pub fn tagged(tag: u8, payload: Vec<u8>) -> (r: Vec<u8>)
    ensures
        r@ == seq![tag] + payload@,
{
    let mut out: Vec<u8> = Vec::new();
    out.push(tag);
    let mut p = payload;
    out.append(&mut p);
    out
}

/// Frames an encoded message given the outcome of compressing it
/// (`None` where that was not tried or failed). A message within the size
/// cap opens back to itself whenever `compressed` decodes to it.
pub fn encode_frame_with(raw: Vec<u8>, compressed: Option<Vec<u8>>) -> (r: Vec<u8>)
    ensures
        r@ == spec_encode_frame(raw@, opt_bytes(compressed)),
        raw@.len() <= MAX_MESSAGE_BYTES && (compressed matches Some(c) ==> spec_zstd_decode_all(c@) == Some(raw@))
            ==> spec_decode_frame(r@) == Ok::<Seq<u8>, FrameError>(raw@),
{
    let ghost r0 = raw@;
    if raw.len() < COMPRESSION_MIN_INPUT {
        let out = tagged(TAG_RAW, raw);
        proof {
            assert(out@.drop_first() =~= r0);
        }
        return out;
    }
    match compressed {
        Some(c) => {
            if c.len() < raw.len() {
                let ghost c0 = c@;
                let out = tagged(TAG_ZSTD, c);
                proof {
                    assert(out@.drop_first() =~= c0);
                }
                out
            } else {
                let out = tagged(TAG_RAW, raw);
                proof {
                    assert(out@.drop_first() =~= r0);
                }
                out
            }
        },
        None => {
            let out = tagged(TAG_RAW, raw);
            proof {
                assert(out@.drop_first() =~= r0);
            }
            out
        },
    }
}

/// The bytes of an optional buffer.
pub open spec fn opt_bytes(o: Option<Vec<u8>>) -> Option<Seq<u8>> {
    match o {
        Some(v) => Some(v@),
        None => None,
    }
}

/// Frames an encoded message, compressing it (at `ZSTD_LEVEL`) only where
/// that shrinks it. A message within the size cap opens back to itself.
pub fn encode_frame(raw: Vec<u8>) -> (r: Vec<u8>)
    ensures
        r@ == spec_encode_frame(raw@, None) || r@ == spec_encode_frame(
            raw@,
            Some(spec_zstd_encode_all(raw@, ZSTD_LEVEL)),
        ),
        raw@.len() <= MAX_MESSAGE_BYTES ==> spec_decode_frame(r@) == Ok::<Seq<u8>, FrameError>(raw@),
{
    if raw.len() < COMPRESSION_MIN_INPUT {
        return encode_frame_with(raw, None);
    }
    let compressed = zstd_encode_all(raw.as_slice(), ZSTD_LEVEL);
    encode_frame_with(raw, compressed)
}

/// Opens a frame: checks the tag, decompresses a zstd payload, and
/// enforces the size cap.
pub fn decode_frame(bytes: &[u8]) -> (r: Result<Vec<u8>, FrameError>)
    ensures
        match r {
            Ok(p) => spec_decode_frame(bytes@) == Ok::<Seq<u8>, FrameError>(p@),
            Err(e) => spec_decode_frame(bytes@) == Err::<Seq<u8>, FrameError>(e) || (e == FrameError::Decompress
                && bytes@[0] == TAG_ZSTD),
        },
        spec_decode_frame(bytes@) is Err ==> r is Err,
{
    if bytes.len() == 0 {
        return Err(FrameError::Empty);
    }
    let tag = bytes[0];
    let payload = bytes.split_at(1).1;
    proof {
        assert(payload@ =~= bytes@.drop_first());
    }
    let raw = if tag == TAG_RAW {
        copy_bytes(payload)
    } else if tag == TAG_ZSTD {
        match zstd_decode_all(payload) {
            Some(p) => p,
            None => {
                return Err(FrameError::Decompress);
            },
        }
    } else {
        return Err(FrameError::UnknownTag(tag));
    };
    if raw.len() > MAX_MESSAGE_BYTES {
        return Err(FrameError::TooLarge);
    }
    Ok(raw)
}

} // verus!
