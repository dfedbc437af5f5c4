//! The video wire messages (postcard's layout): one encoded frame tagged
//! with its codec, and a recorded clip as a codec and a list of packets.
//! A receiver drops frames of a codec other than the negotiated one.
use vstd::prelude::*;
use crate::calls::codec::VideoCodec;
use crate::util::{append_bytes, copy_bytes};
use crate::varint::{
    WireError, lemma_varint32_roundtrip, lemma_varint_roundtrip, push_varint, spec_take_varint, spec_take_varint32,
    take_varint, take_varint32, varint,
};

verus! {

/// A codec's variant index on the wire.
pub open spec fn codec_tag(c: VideoCodec) -> u32 {
    match c {
        VideoCodec::Av1 => 0,
        VideoCodec::H264 => 1,
        VideoCodec::H265 => 2,
    }
}

/// The codec a variant index names.
pub open spec fn codec_of_tag(t: u32) -> Option<VideoCodec> {
    if t == 0 {
        Some(VideoCodec::Av1)
    } else if t == 1 {
        Some(VideoCodec::H264)
    } else if t == 2 {
        Some(VideoCodec::H265)
    } else {
        None
    }
}

fn tag_of(c: VideoCodec) -> (r: u32)
    ensures
        r == codec_tag(c),
{
    match c {
        VideoCodec::Av1 => 0,
        VideoCodec::H264 => 1,
        VideoCodec::H265 => 2,
    }
}

fn codec_from_tag(t: u32) -> (r: Option<VideoCodec>)
    ensures
        r == codec_of_tag(t),
{
    if t == 0 {
        Some(VideoCodec::Av1)
    } else if t == 1 {
        Some(VideoCodec::H264)
    } else if t == 2 {
        Some(VideoCodec::H265)
    } else {
        None
    }
}

/// A codec tag read from the front of `b`, and its length.
pub open spec fn spec_take_codec(b: Seq<u8>) -> Result<(VideoCodec, nat), WireError> {
    match spec_take_varint32(b) {
        Err(e) => Err(e),
        Ok((t, k)) => match codec_of_tag(t) {
            Some(c) => Ok((c, k)),
            None => Err(WireError::UnknownVariant),
        },
    }
}

/// A length-prefixed byte string read from the front of `b`, and the
/// bytes it took.
pub open spec fn spec_take_bytes(b: Seq<u8>) -> Result<(Seq<u8>, nat), WireError> {
    match spec_take_varint(b) {
        Err(e) => Err(e),
        Ok((len, k)) => if k + len > b.len() {
            Err(WireError::UnexpectedEnd)
        } else {
            Ok((b.subrange(k as int, k + len), (k + len) as nat))
        },
    }
}

/// A length-prefixed byte string.
pub open spec fn enc_bytes(p: Seq<u8>) -> Seq<u8> {
    varint(p.len()) + p
}

/// One video frame on the wire: codec tag, then the payload.
pub open spec fn spec_encode_frame_msg(c: VideoCodec, payload: Seq<u8>) -> Seq<u8> {
    varint(codec_tag(c) as nat) + enc_bytes(payload)
}

/// What a received frame decodes to; trailing bytes are ignored.
pub open spec fn spec_decode_frame_msg(b: Seq<u8>) -> Result<(VideoCodec, Seq<u8>), WireError> {
    match spec_take_codec(b) {
        Err(e) => Err(e),
        Ok((c, k)) => match spec_take_bytes(b.skip(k as int)) {
            Err(e) => Err(e),
            Ok((p, _)) => Ok((c, p)),
        },
    }
}

/// `n` length-prefixed byte strings read from the front of `b`, and the
/// bytes they took.
pub open spec fn spec_take_packets(b: Seq<u8>, n: nat) -> Result<(Seq<Seq<u8>>, nat), WireError>
    decreases n,
{
    if n == 0 {
        Ok((Seq::empty(), 0))
    } else {
        match spec_take_bytes(b) {
            Err(e) => Err(e),
            Ok((p, k)) => match spec_take_packets(b.skip(k as int), (n - 1) as nat) {
                Err(e) => Err(e),
                Ok((ps, k2)) => Ok((seq![p] + ps, k + k2)),
            },
        }
    }
}

/// The packets, each length-prefixed, one after another.
pub open spec fn enc_packets(ps: Seq<Seq<u8>>) -> Seq<u8>
    decreases ps.len(),
{
    if ps.len() == 0 {
        Seq::empty()
    } else {
        enc_bytes(ps[0]) + enc_packets(ps.drop_first())
    }
}

/// A clip on the wire: codec tag, packet count, packets.
pub open spec fn spec_encode_clip(c: VideoCodec, ps: Seq<Seq<u8>>) -> Seq<u8> {
    varint(codec_tag(c) as nat) + varint(ps.len()) + enc_packets(ps)
}

/// A packet list on its own: count, then packets.
pub open spec fn spec_take_packet_list(b: Seq<u8>) -> Result<Seq<Seq<u8>>, WireError> {
    match spec_take_varint(b) {
        Err(e) => Err(e),
        Ok((n, k)) => match spec_take_packets(b.skip(k as int), n as nat) {
            Err(e) => Err(e),
            Ok((ps, _)) => Ok(ps),
        },
    }
}

/// What a stored clip decodes to: a tagged clip, or else (clips from
/// before codecs were tagged) a bare packet list, which is AV1.
pub open spec fn spec_decode_clip(b: Seq<u8>) -> Result<(VideoCodec, Seq<Seq<u8>>), WireError> {
    let tagged = match spec_take_codec(b) {
        Err(e) => Err(e),
        Ok((c, k)) => match spec_take_packet_list(b.skip(k as int)) {
            Err(e) => Err(e),
            Ok(ps) => Ok((c, ps)),
        },
    };
    match tagged {
        Ok(r) => Ok(r),
        Err(_) => match spec_take_packet_list(b) {
            Ok(ps) => Ok((VideoCodec::Av1, ps)),
            Err(e) => Err(e),
        },
    }
}

fn take_codec(b: &[u8]) -> (r: Result<(VideoCodec, usize), WireError>)
    ensures
        match r {
            Ok((c, k)) => spec_take_codec(b@) == Ok::<(VideoCodec, nat), WireError>((c, k as nat)),
            Err(e) => spec_take_codec(b@) == Err::<(VideoCodec, nat), WireError>(e),
        },
        r matches Ok((c, k)) ==> 1 <= k <= b@.len(),
{
    let (t, k) = match take_varint32(b) {
        Ok(p) => p,
        Err(e) => {
            return Err(e);
        },
    };
    match codec_from_tag(t) {
        Some(c) => Ok((c, k)),
        None => Err(WireError::UnknownVariant),
    }
}

fn take_bytes(b: &[u8]) -> (r: Result<(Vec<u8>, usize), WireError>)
    ensures
        match r {
            Ok((p, k)) => spec_take_bytes(b@) == Ok::<(Seq<u8>, nat), WireError>((p@, k as nat)),
            Err(e) => spec_take_bytes(b@) == Err::<(Seq<u8>, nat), WireError>(e),
        },
        r matches Ok((p, k)) ==> 1 <= k <= b@.len(),
{
    let (len, k) = match take_varint(b) {
        Ok(p) => p,
        Err(e) => {
            return Err(e);
        },
    };
    let avail = b.len() - k;
    if len > avail as u64 {
        return Err(WireError::UnexpectedEnd);
    }
    let end = k + len as usize;
    Ok((copy_bytes(&b[k..end]), end))
}

proof fn lemma_take_bytes_roundtrip(p: Seq<u8>, rest: Seq<u8>)
    requires
        p.len() <= u64::MAX,
    ensures
        spec_take_bytes(enc_bytes(p) + rest) == Ok::<(Seq<u8>, nat), WireError>((p, enc_bytes(p).len())),
{
    let v = varint(p.len());
    let b = enc_bytes(p) + rest;
    assert(b =~= v + (p + rest));
    lemma_varint_roundtrip(p.len() as u64, p + rest);
    assert(b.subrange(v.len() as int, v.len() + p.len() as int) =~= p);
    assert(enc_bytes(p).len() == v.len() + p.len());
}

proof fn lemma_after_prefix_empty(r: Result<(Seq<Seq<u8>>, nat), WireError>)
    ensures
        after_prefix(Seq::empty(), 0, r) == r,
{
    match r {
        Ok((ps, k)) => {
            assert(Seq::<Seq<u8>>::empty() + ps =~= ps);
        },
        Err(_) => {},
    }
}

proof fn lemma_after_prefix_step(
    prefix: Seq<Seq<u8>>,
    used: nat,
    p: Seq<u8>,
    k: nat,
    rest: Result<(Seq<Seq<u8>>, nat), WireError>,
)
    ensures
        after_prefix(
            prefix,
            used,
            match rest {
                Err(e) => Err(e),
                Ok((ps, k2)) => Ok((seq![p] + ps, k + k2)),
            },
        ) == after_prefix(prefix.push(p), used + k, rest),
{
    match rest {
        Ok((ps, k2)) => {
            assert(prefix + (seq![p] + ps) =~= prefix.push(p) + ps);
        },
        Err(_) => {},
    }
}

/// The packets already read put in front of what the rest gives.
pub open spec fn after_prefix(prefix: Seq<Seq<u8>>, used: nat, rest: Result<(Seq<Seq<u8>>, nat), WireError>) -> Result<
    (Seq<Seq<u8>>, nat),
    WireError,
> {
    match rest {
        Err(e) => Err(e),
        Ok((ps, k)) => Ok((prefix + ps, used + k)),
    }
}

fn take_packets(b: &[u8], n: u64) -> (r: Result<(Vec<Vec<u8>>, usize), WireError>)
    ensures
        match r {
            Ok((ps, k)) => spec_take_packets(b@, n as nat) == Ok::<(Seq<Seq<u8>>, nat), WireError>(
                (ps@.map_values(|p: Vec<u8>| p@), k as nat),
            ),
            Err(e) => spec_take_packets(b@, n as nat) == Err::<(Seq<Seq<u8>>, nat), WireError>(e),
        },
        r matches Ok((ps, k)) ==> k <= b@.len(),
{
    let mut out: Vec<Vec<u8>> = Vec::new();
    let mut off: usize = 0;
    let mut i: u64 = 0;
    let blen = b.len();
    proof {
        assert(b@.skip(0) =~= b@);
        assert(out@.map_values(|p: Vec<u8>| p@) =~= Seq::<Seq<u8>>::empty());
        lemma_after_prefix_empty(spec_take_packets(b@, n as nat));
    }
    while i < n
        invariant
            i <= n,
            blen == b@.len(),
            off <= b@.len(),
            spec_take_packets(b@, n as nat) == after_prefix(
                out@.map_values(|p: Vec<u8>| p@),
                off as nat,
                spec_take_packets(b@.skip(off as int), (n - i) as nat),
            ),
        decreases b@.len() - off,
    {
        let rest = b.split_at(off).1;
        proof {
            assert(rest@ =~= b@.skip(off as int));
        }
        let (p, k) = match take_bytes(rest) {
            Ok(x) => x,
            Err(e) => {
                return Err(e);
            },
        };
        let ghost before = out@.map_values(|q: Vec<u8>| q@);
        let ghost pv = p@;
        proof {
            assert(k <= rest@.len());
            assert(off + k <= blen);
            assert(b@.skip(off as int).skip(k as int) =~= b@.skip(off + k));
            lemma_after_prefix_step(
                before,
                off as nat,
                pv,
                k as nat,
                spec_take_packets(b@.skip(off + k), (n - i - 1) as nat),
            );
        }
        out.push(p);
        proof {
            assert(out@.map_values(|q: Vec<u8>| q@) =~= before.push(pv));
        }
        off = off + k;
        i = i + 1;
    }
    proof {
        assert(out@.map_values(|p: Vec<u8>| p@) + Seq::<Seq<u8>>::empty() =~= out@.map_values(|p: Vec<u8>| p@));
    }
    Ok((out, off))
}

fn take_packet_list(b: &[u8]) -> (r: Result<Vec<Vec<u8>>, WireError>)
    ensures
        match r {
            Ok(ps) => spec_take_packet_list(b@) == Ok::<Seq<Seq<u8>>, WireError>(ps@.map_values(|p: Vec<u8>| p@)),
            Err(e) => spec_take_packet_list(b@) == Err::<Seq<Seq<u8>>, WireError>(e),
        },
{
    let (n, k) = match take_varint(b) {
        Ok(p) => p,
        Err(e) => {
            return Err(e);
        },
    };
    let rest = b.split_at(k).1;
    proof {
        assert(rest@ =~= b@.skip(k as int));
    }
    match take_packets(rest, n) {
        Ok((ps, _)) => Ok(ps),
        Err(e) => Err(e),
    }
}

/// One frame's wire form, which decodes back to the codec and payload.
pub fn encode_frame_msg(codec: VideoCodec, payload: &[u8]) -> (r: Vec<u8>)
    ensures
        r@ == spec_encode_frame_msg(codec, payload@),
        spec_decode_frame_msg(r@) == Ok::<(VideoCodec, Seq<u8>), WireError>((codec, payload@)),
{
    let mut out: Vec<u8> = Vec::new();
    push_varint(&mut out, tag_of(codec) as u64);
    push_varint(&mut out, payload.len() as u64);
    append_bytes(&mut out, payload);
    proof {
        let t = varint(codec_tag(codec) as nat);
        let body = enc_bytes(payload@);
        assert(out@ =~= t + body);
        lemma_varint32_roundtrip(codec_tag(codec), body);
        assert(out@.skip(t.len() as int) =~= body + Seq::<u8>::empty());
        lemma_take_bytes_roundtrip(payload@, Seq::<u8>::empty());
    }
    out
}

/// Decodes a received frame.
pub fn decode_frame_msg(bytes: &[u8]) -> (r: Result<(VideoCodec, Vec<u8>), WireError>)
    ensures
        match r {
            Ok((c, p)) => spec_decode_frame_msg(bytes@) == Ok::<(VideoCodec, Seq<u8>), WireError>((c, p@)),
            Err(e) => spec_decode_frame_msg(bytes@) == Err::<(VideoCodec, Seq<u8>), WireError>(e),
        },
{
    let (c, k) = match take_codec(bytes) {
        Ok(x) => x,
        Err(e) => {
            return Err(e);
        },
    };
    let rest = bytes.split_at(k).1;
    proof {
        assert(rest@ =~= bytes@.skip(k as int));
    }
    match take_bytes(rest) {
        Ok((p, _)) => Ok((c, p)),
        Err(e) => Err(e),
    }
}

/// The payload of a received frame, where it decodes and carries the
/// negotiated codec; anything else is dropped.
pub fn accept_video_frame(bytes: &[u8], expected: VideoCodec) -> (r: Option<Vec<u8>>)
    ensures
        match spec_decode_frame_msg(bytes@) {
            Ok((c, p)) => if c == expected {
                r matches Some(q) && q@ == p
            } else {
                r is None
            },
            Err(_) => r is None,
        },
{
    match decode_frame_msg(bytes) {
        Ok((c, p)) => {
            if c == expected {
                Some(p)
            } else {
                None
            }
        },
        Err(_) => None,
    }
}

proof fn lemma_enc_packets_push(ps: Seq<Seq<u8>>, p: Seq<u8>)
    ensures
        enc_packets(ps.push(p)) == enc_packets(ps) + enc_bytes(p),
    decreases ps.len(),
{
    if ps.len() == 0 {
        assert(ps.push(p).drop_first() =~= Seq::<Seq<u8>>::empty());
        assert(ps.push(p)[0] == p);
        assert(enc_packets(Seq::<Seq<u8>>::empty()) == Seq::<u8>::empty());
        assert(enc_packets(ps) == Seq::<u8>::empty());
        assert(enc_packets(ps.push(p)) =~= enc_bytes(p) + Seq::<u8>::empty());
    } else {
        lemma_enc_packets_push(ps.drop_first(), p);
        assert(ps.push(p).drop_first() =~= ps.drop_first().push(p));
        assert(enc_packets(ps.push(p)) =~= enc_bytes(ps[0]) + (enc_packets(ps.drop_first()) + enc_bytes(p)));
    }
}

proof fn lemma_packets_roundtrip(ps: Seq<Seq<u8>>, rest: Seq<u8>)
    requires
        forall|i: int| 0 <= i < ps.len() ==> (#[trigger] ps[i]).len() <= u64::MAX,
    ensures
        spec_take_packets(enc_packets(ps) + rest, ps.len()) == Ok::<(Seq<Seq<u8>>, nat), WireError>(
            (ps, enc_packets(ps).len()),
        ),
    decreases ps.len(),
{
    if ps.len() > 0 {
        let first = enc_bytes(ps[0]);
        let tail = enc_packets(ps.drop_first());
        let b = enc_packets(ps) + rest;
        assert(b =~= first + (tail + rest));
        lemma_take_bytes_roundtrip(ps[0], tail + rest);
        assert(b.skip(first.len() as int) =~= tail + rest);
        assert forall|i: int| 0 <= i < ps.drop_first().len() implies (#[trigger] ps.drop_first()[i]).len() <= u64::MAX by {
            assert(ps.drop_first()[i] == ps[i + 1]);
        }
        lemma_packets_roundtrip(ps.drop_first(), rest);
        assert(seq![ps[0]] + ps.drop_first() =~= ps);
    } else {
        assert(ps =~= Seq::<Seq<u8>>::empty());
    }
}

/// A clip's stored form, which decodes back to the codec and packets.
pub fn encode_clip_packets(codec: VideoCodec, packets: &Vec<Vec<u8>>) -> (r: Vec<u8>)
    ensures
        r@ == spec_encode_clip(codec, packets@.map_values(|p: Vec<u8>| p@)),
        spec_decode_clip(r@) == Ok::<(VideoCodec, Seq<Seq<u8>>), WireError>(
            (codec, packets@.map_values(|p: Vec<u8>| p@)),
        ),
{
    let ghost ps = packets@.map_values(|p: Vec<u8>| p@);
    let mut out: Vec<u8> = Vec::new();
    push_varint(&mut out, tag_of(codec) as u64);
    push_varint(&mut out, packets.len() as u64);
    let ghost head = out@;
    let mut i: usize = 0;
    while i < packets.len()
        invariant
            i <= packets@.len(),
            ps == packets@.map_values(|p: Vec<u8>| p@),
            out@ == head + enc_packets(ps.take(i as int)),
            forall|j: int| 0 <= j < i ==> (#[trigger] ps[j]).len() <= u64::MAX,
        decreases packets@.len() - i,
    {
        let p = &packets[i];
        let plen = p.len();
        proof {
            assert(ps[i as int] == p@);
            assert(ps[i as int].len() == plen);
        }
        push_varint(&mut out, plen as u64);
        append_bytes(&mut out, p.as_slice());
        proof {
            lemma_enc_packets_push(ps.take(i as int), ps[i as int]);
            assert(ps.take(i + 1) =~= ps.take(i as int).push(ps[i as int]));
            assert(out@ =~= head + enc_packets(ps.take(i + 1)));
        }
        i += 1;
    }
    proof {
        assert(ps.take(ps.len() as int) =~= ps);
        let t = varint(codec_tag(codec) as nat);
        let body = varint(ps.len()) + enc_packets(ps);
        assert(out@ =~= t + body);
        lemma_varint32_roundtrip(codec_tag(codec), body);
        assert(out@.skip(t.len() as int) =~= body);
        lemma_varint_roundtrip(ps.len() as u64, enc_packets(ps));
        assert(body.skip(varint(ps.len()).len() as int) =~= enc_packets(ps) + Seq::<u8>::empty());
        lemma_packets_roundtrip(ps, Seq::<u8>::empty());
    }
    out
}

/// Decodes a stored clip, accepting untagged (AV1) clips too.
pub fn decode_clip_packets(blob: &[u8]) -> (r: Result<(VideoCodec, Vec<Vec<u8>>), WireError>)
    ensures
        match r {
            Ok((c, ps)) => spec_decode_clip(blob@) == Ok::<(VideoCodec, Seq<Seq<u8>>), WireError>(
                (c, ps@.map_values(|p: Vec<u8>| p@)),
            ),
            Err(e) => spec_decode_clip(blob@) == Err::<(VideoCodec, Seq<Seq<u8>>), WireError>(e),
        },
{
    match take_codec(blob) {
        Ok((c, k)) => {
            let rest = blob.split_at(k).1;
            proof {
                assert(rest@ =~= blob@.skip(k as int));
            }
            match take_packet_list(rest) {
                Ok(ps) => {
                    return Ok((c, ps));
                },
                Err(_) => {},
            }
        },
        Err(_) => {},
    }
    match take_packet_list(blob) {
        Ok(ps) => Ok((VideoCodec::Av1, ps)),
        Err(e) => Err(e),
    }
}

/// Codec tags one after another.
pub open spec fn enc_codec_tags(cs: Seq<VideoCodec>) -> Seq<u8>
    decreases cs.len(),
{
    if cs.len() == 0 {
        Seq::empty()
    } else {
        varint(codec_tag(cs[0]) as nat) + enc_codec_tags(cs.drop_first())
    }
}

/// A list of codecs: its length, then each codec's tag.
pub open spec fn enc_codec_list(cs: Seq<VideoCodec>) -> Seq<u8> {
    varint(cs.len()) + enc_codec_tags(cs)
}

/// `n` codec tags read from the front of `b`.
pub open spec fn spec_take_codecs(b: Seq<u8>, n: nat) -> Result<(Seq<VideoCodec>, nat), WireError>
    decreases n,
{
    if n == 0 {
        Ok((Seq::empty(), 0))
    } else {
        match spec_take_codec(b) {
            Err(e) => Err(e),
            Ok((c, k)) => match spec_take_codecs(b.skip(k as int), (n - 1) as nat) {
                Err(e) => Err(e),
                Ok((cs, k2)) => Ok((seq![c] + cs, k + k2)),
            },
        }
    }
}

/// A codec list read from the front of `b`, and the bytes it took.
pub open spec fn spec_take_codec_list(b: Seq<u8>) -> Result<(Seq<VideoCodec>, nat), WireError> {
    match spec_take_varint(b) {
        Err(e) => Err(e),
        Ok((n, k)) => match spec_take_codecs(b.skip(k as int), n as nat) {
            Err(e) => Err(e),
            Ok((cs, k2)) => Ok((cs, k + k2)),
        },
    }
}

proof fn lemma_codec_tags_push(cs: Seq<VideoCodec>, c: VideoCodec)
    ensures
        enc_codec_tags(cs.push(c)) == enc_codec_tags(cs) + varint(codec_tag(c) as nat),
    decreases cs.len(),
{
    if cs.len() == 0 {
        assert(cs.push(c).drop_first() =~= Seq::<VideoCodec>::empty());
        assert(cs.push(c)[0] == c);
        assert(enc_codec_tags(Seq::<VideoCodec>::empty()) == Seq::<u8>::empty());
        assert(enc_codec_tags(cs) == Seq::<u8>::empty());
        assert(enc_codec_tags(cs.push(c)) =~= varint(codec_tag(c) as nat) + Seq::<u8>::empty());
    } else {
        lemma_codec_tags_push(cs.drop_first(), c);
        assert(cs.push(c).drop_first() =~= cs.drop_first().push(c));
        assert(cs.push(c)[0] == cs[0]);
        assert(enc_codec_tags(cs.push(c)) =~= varint(codec_tag(cs[0]) as nat) + (enc_codec_tags(cs.drop_first())
            + varint(codec_tag(c) as nat)));
    }
}

proof fn lemma_codec_roundtrip(c: VideoCodec, rest: Seq<u8>)
    ensures
        spec_take_codec(varint(codec_tag(c) as nat) + rest) == Ok::<(VideoCodec, nat), WireError>(
            (c, varint(codec_tag(c) as nat).len()),
        ),
{
    lemma_varint32_roundtrip(codec_tag(c), rest);
}

proof fn lemma_codecs_roundtrip(cs: Seq<VideoCodec>, rest: Seq<u8>)
    ensures
        spec_take_codecs(enc_codec_tags(cs) + rest, cs.len()) == Ok::<(Seq<VideoCodec>, nat), WireError>(
            (cs, enc_codec_tags(cs).len()),
        ),
    decreases cs.len(),
{
    if cs.len() > 0 {
        let first = varint(codec_tag(cs[0]) as nat);
        let tail = enc_codec_tags(cs.drop_first());
        let b = enc_codec_tags(cs) + rest;
        assert(b =~= first + (tail + rest));
        lemma_codec_roundtrip(cs[0], tail + rest);
        assert(b.skip(first.len() as int) =~= tail + rest);
        lemma_codecs_roundtrip(cs.drop_first(), rest);
        assert(seq![cs[0]] + cs.drop_first() =~= cs);
    } else {
        assert(cs =~= Seq::<VideoCodec>::empty());
    }
}

/// A codec list reads back as written, whatever follows it.
pub proof fn lemma_codec_list_roundtrip(cs: Seq<VideoCodec>, rest: Seq<u8>)
    requires
        cs.len() <= u64::MAX,
    ensures
        spec_take_codec_list(enc_codec_list(cs) + rest) == Ok::<(Seq<VideoCodec>, nat), WireError>(
            (cs, enc_codec_list(cs).len()),
        ),
{
    let v = varint(cs.len());
    let t = enc_codec_tags(cs);
    let b = enc_codec_list(cs) + rest;
    assert(b =~= v + (t + rest));
    lemma_varint_roundtrip(cs.len() as u64, t + rest);
    assert(b.skip(v.len() as int) =~= t + rest);
    lemma_codecs_roundtrip(cs, rest);
}

/// Appends a codec list.
pub fn push_codec_list(out: &mut Vec<u8>, cs: &[VideoCodec])
    ensures
        final(out)@ == old(out)@ + enc_codec_list(cs@),
        cs@.len() <= u64::MAX,
{
    let ghost start = out@;
    push_varint(out, cs.len() as u64);
    let ghost head = out@;
    let mut i: usize = 0;
    while i < cs.len()
        invariant
            i <= cs@.len(),
            head == start + varint(cs@.len()),
            out@ == head + enc_codec_tags(cs@.take(i as int)),
        decreases cs@.len() - i,
    {
        push_varint(out, tag_of(cs[i]) as u64);
        proof {
            lemma_codec_tags_push(cs@.take(i as int), cs@[i as int]);
            assert(cs@.take(i + 1) =~= cs@.take(i as int).push(cs@[i as int]));
            assert(out@ =~= head + enc_codec_tags(cs@.take(i + 1)));
        }
        i += 1;
    }
    proof {
        assert(cs@.take(cs@.len() as int) =~= cs@);
        assert(out@ =~= start + enc_codec_list(cs@));
    }
}

/// Reads a codec list from the front of `b`.
pub fn take_codec_list(b: &[u8]) -> (r: Result<(Vec<VideoCodec>, usize), WireError>)
    ensures
        match r {
            Ok((cs, k)) => spec_take_codec_list(b@) == Ok::<(Seq<VideoCodec>, nat), WireError>((cs@, k as nat))
                && k <= b@.len(),
            Err(e) => spec_take_codec_list(b@) == Err::<(Seq<VideoCodec>, nat), WireError>(e),
        },
{
    let blen = b.len();
    let (n, k) = match take_varint(b) {
        Ok(p) => p,
        Err(e) => {
            return Err(e);
        },
    };
    let mut out: Vec<VideoCodec> = Vec::new();
    let mut off: usize = k;
    let mut i: u64 = 0;
    proof {
        assert(b@.skip(off as int).skip(0) =~= b@.skip(off as int));
    }
    while i < n
        invariant
            i <= n,
            blen == b@.len(),
            k <= off <= b@.len(),
            spec_take_varint(b@) == Ok::<(u64, nat), WireError>((n, k as nat)),
            spec_take_codecs(b@.skip(k as int), n as nat) == codecs_after(
                out@,
                (off - k) as nat,
                spec_take_codecs(b@.skip(off as int), (n - i) as nat),
            ),
        decreases b@.len() - off,
    {
        let rest = b.split_at(off).1;
        proof {
            assert(rest@ =~= b@.skip(off as int));
        }
        let (c, k1) = match take_codec(rest) {
            Ok(x) => x,
            Err(e) => {
                return Err(e);
            },
        };
        proof {
            assert(b@.skip(off as int).skip(k1 as int) =~= b@.skip(off + k1));
            lemma_codecs_after_step(out@, (off - k) as nat, c, k1 as nat, spec_take_codecs(b@.skip(off + k1), (n - i - 1) as nat));
        }
        out.push(c);
        off = off + k1;
        i = i + 1;
    }
    proof {
        assert(out@ + Seq::<VideoCodec>::empty() =~= out@);
    }
    Ok((out, off))
}

/// The codecs already read put in front of what the rest gives.
pub open spec fn codecs_after(prefix: Seq<VideoCodec>, used: nat, rest: Result<(Seq<VideoCodec>, nat), WireError>) -> Result<
    (Seq<VideoCodec>, nat),
    WireError,
> {
    match rest {
        Err(e) => Err(e),
        Ok((cs, k)) => Ok((prefix + cs, used + k)),
    }
}

proof fn lemma_codecs_after_step(
    prefix: Seq<VideoCodec>,
    used: nat,
    c: VideoCodec,
    k: nat,
    rest: Result<(Seq<VideoCodec>, nat), WireError>,
)
    ensures
        codecs_after(
            prefix,
            used,
            match rest {
                Err(e) => Err(e),
                Ok((cs, k2)) => Ok((seq![c] + cs, k + k2)),
            },
        ) == codecs_after(prefix.push(c), used + k, rest),
{
    match rest {
        Ok((cs, k2)) => {
            assert(prefix + (seq![c] + cs) =~= prefix.push(c) + cs);
        },
        Err(_) => {},
    }
}

} // verus!
