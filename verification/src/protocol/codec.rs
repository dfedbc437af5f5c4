//! The envelope's serialized form (postcard's layout): fields in
//! declaration order, numbers as varints, strings length-prefixed,
//! options and booleans as one tag byte, the body as its variant index and
//! then its fields. Encoding then decoding gives the envelope back.
use vstd::prelude::*;
use vstd::utf8::encode_utf8;
use crate::protocol::frame::{
    FrameError, MAX_MESSAGE_BYTES, TAG_ZSTD, ZSTD_LEVEL, decode_frame, encode_frame, spec_decode_frame, spec_encode_frame,
    spec_zstd_encode_all,
};
use crate::protocol::message::{Body, Envelope, StatusAudio, StatusImage, StatusVideo};
use crate::varint::{WireError, lemma_varint32_roundtrip};
use crate::wire::{
    c_bool, c_opt, c_str, c_tag, c_take_bool, c_take_opt, c_take_str, c_take_tag, c_take_u64, c_u64, lemma_c_bool,
    lemma_c_opt, lemma_c_str, lemma_c_u64, push_c_bool, push_c_opt, push_c_str, push_c_u64, push_tag, take_c_bool,
    take_c_opt, take_c_str, take_c_u64, take_tag,
};

verus! {

/// A status attachment as plain values.
pub struct AttachmentView {
    pub blake3_hash: Seq<char>,
    pub size_bytes: u64,
}

/// A body as plain values.
pub enum BodyView {
    Text { text: Seq<char>, reply_to: Option<u64> },
    File {
        name: Seq<char>,
        mime: Seq<char>,
        size_bytes: u64,
        compressed: bool,
        blake3_hash: Seq<char>,
        reply_to: Option<u64>,
    },
    Hello,
    Ack(u64),
    Typing,
    Ping,
    Status {
        text: Seq<char>,
        image: Option<AttachmentView>,
        video: Option<AttachmentView>,
        audio: Option<AttachmentView>,
    },
    AvatarUpdate { blake3_hash: Seq<char>, size_bytes: u64 },
    Reaction { target_id: u64, emoji: Seq<char>, remove: bool },
    Edit { target_id: u64, new_text: Seq<char> },
    Delete { target_id: u64 },
    Read { up_to_sent_unix_ms: u64 },
}

/// An envelope as plain values.
pub struct EnvelopeView {
    pub id: u64,
    pub from_name: Seq<char>,
    pub sent_unix_ms: u64,
    pub expires_at_unix_ms: Option<u64>,
    pub body: BodyView,
}

pub open spec fn image_view(a: Option<StatusImage>) -> Option<AttachmentView> {
    match a {
        Some(x) => Some(AttachmentView { blake3_hash: x.blake3_hash@, size_bytes: x.size_bytes }),
        None => None,
    }
}

pub open spec fn video_view(a: Option<StatusVideo>) -> Option<AttachmentView> {
    match a {
        Some(x) => Some(AttachmentView { blake3_hash: x.blake3_hash@, size_bytes: x.size_bytes }),
        None => None,
    }
}

pub open spec fn audio_view(a: Option<StatusAudio>) -> Option<AttachmentView> {
    match a {
        Some(x) => Some(AttachmentView { blake3_hash: x.blake3_hash@, size_bytes: x.size_bytes }),
        None => None,
    }
}

/// The plain-value form of a body.
pub open spec fn body_view(b: Body) -> BodyView {
    match b {
        Body::Text { text, reply_to } => BodyView::Text { text: text@, reply_to },
        Body::File { name, mime, size_bytes, compressed, blake3_hash, reply_to } => BodyView::File {
            name: name@,
            mime: mime@,
            size_bytes,
            compressed,
            blake3_hash: blake3_hash@,
            reply_to,
        },
        Body::Hello => BodyView::Hello,
        Body::Ack(id) => BodyView::Ack(id),
        Body::Typing => BodyView::Typing,
        Body::Ping => BodyView::Ping,
        Body::Status { text, image, video, audio } => BodyView::Status {
            text: text@,
            image: image_view(image),
            video: video_view(video),
            audio: audio_view(audio),
        },
        Body::AvatarUpdate { blake3_hash, size_bytes } => BodyView::AvatarUpdate {
            blake3_hash: blake3_hash@,
            size_bytes,
        },
        Body::Reaction { target_id, emoji, remove } => BodyView::Reaction { target_id, emoji: emoji@, remove },
        Body::Edit { target_id, new_text } => BodyView::Edit { target_id, new_text: new_text@ },
        Body::Delete { target_id } => BodyView::Delete { target_id },
        Body::Read { up_to_sent_unix_ms } => BodyView::Read { up_to_sent_unix_ms },
    }
}

/// The plain-value form of an envelope.
pub open spec fn envelope_view(e: Envelope) -> EnvelopeView {
    EnvelopeView {
        id: e.id,
        from_name: e.from_name@,
        sent_unix_ms: e.sent_unix_ms,
        expires_at_unix_ms: e.expires_at_unix_ms,
        body: body_view(e.body),
    }
}

pub open spec fn enc_attachment(a: AttachmentView) -> Seq<u8> {
    c_str(a.blake3_hash) + c_u64(a.size_bytes)
}

pub open spec fn enc_opt_attachment(o: Option<AttachmentView>) -> Seq<u8> {
    match o {
        None => seq![0u8],
        Some(a) => seq![1u8] + enc_attachment(a),
    }
}

pub open spec fn tag(t: nat) -> Seq<u8> {
    c_tag(t)
}

/// A body: its variant index, then its fields in order.
pub open spec fn enc_body(b: BodyView) -> Seq<u8> {
    match b {
        BodyView::Text { text, reply_to } => tag(0) + c_str(text) + c_opt(reply_to),
        BodyView::File { name, mime, size_bytes, compressed, blake3_hash, reply_to } => tag(1) + c_str(name)
            + c_str(mime) + c_u64(size_bytes) + c_bool(compressed) + c_str(blake3_hash) + c_opt(
            reply_to,
        ),
        BodyView::Hello => tag(2),
        BodyView::Ack(id) => tag(3) + c_u64(id),
        BodyView::Typing => tag(4),
        BodyView::Ping => tag(5),
        BodyView::Status { text, image, video, audio } => tag(6) + c_str(text) + enc_opt_attachment(image)
            + enc_opt_attachment(video) + enc_opt_attachment(audio),
        BodyView::AvatarUpdate { blake3_hash, size_bytes } => tag(7) + c_str(blake3_hash) + c_u64(size_bytes),
        BodyView::Reaction { target_id, emoji, remove } => tag(8) + c_u64(target_id) + c_str(emoji)
            + c_bool(remove),
        BodyView::Edit { target_id, new_text } => tag(9) + c_u64(target_id) + c_str(new_text),
        BodyView::Delete { target_id } => tag(10) + c_u64(target_id),
        BodyView::Read { up_to_sent_unix_ms } => tag(11) + c_u64(up_to_sent_unix_ms),
    }
}

/// An envelope: id, sender name, send time, expiry, body.
pub open spec fn spec_encode_envelope(e: EnvelopeView) -> Seq<u8> {
    c_u64(e.id) + c_str(e.from_name) + c_u64(e.sent_unix_ms) + c_opt(e.expires_at_unix_ms)
        + enc_body(e.body)
}

/// An attachment read from the front of `b`.
pub open spec fn spec_take_attachment(b: Seq<u8>) -> Result<(AttachmentView, nat), WireError> {
    match c_take_str(b) {
        Err(e) => Err(e),
        Ok((h, k1)) => match c_take_u64(b.skip(k1 as int)) {
            Err(e) => Err(e),
            Ok((sz, k2)) => Ok((AttachmentView { blake3_hash: h, size_bytes: sz }, k1 + k2)),
        },
    }
}

/// An optional attachment read from the front of `b`.
pub open spec fn spec_take_opt_attachment(b: Seq<u8>) -> Result<(Option<AttachmentView>, nat), WireError> {
    if b.len() == 0 {
        Err(WireError::UnexpectedEnd)
    } else if b[0] == 0 {
        Ok((None, 1))
    } else if b[0] == 1 {
        match spec_take_attachment(b.skip(1)) {
            Err(e) => Err(e),
            Ok((a, k)) => Ok((Some(a), k + 1)),
        }
    } else {
        Err(WireError::BadOption)
    }
}

/// A text body's fields.
pub open spec fn take_text_fields(r: Seq<u8>) -> Result<(BodyView, nat), WireError> {
    match c_take_str(r) {
        Err(e) => Err(e),
        Ok((text, k1)) => match c_take_opt(r.skip(k1 as int)) {
            Err(e) => Err(e),
            Ok((reply_to, k2)) => Ok((BodyView::Text { text, reply_to }, k1 + k2)),
        },
    }
}

/// A file body's last three fields, after name, mime and size.
pub open spec fn take_file_tail(
    r: Seq<u8>,
    name: Seq<char>,
    mime: Seq<char>,
    size_bytes: u64,
) -> Result<(BodyView, nat), WireError> {
    match c_take_bool(r) {
        Err(e) => Err(e),
        Ok((compressed, k4)) => match c_take_str(r.skip(k4 as int)) {
            Err(e) => Err(e),
            Ok((blake3_hash, k5)) => match c_take_opt(r.skip((k4 + k5) as int)) {
                Err(e) => Err(e),
                Ok((reply_to, k6)) => Ok(
                    (BodyView::File { name, mime, size_bytes, compressed, blake3_hash, reply_to }, k4 + k5 + k6),
                ),
            },
        },
    }
}

/// A file body's fields.
pub open spec fn take_file_fields(r: Seq<u8>) -> Result<(BodyView, nat), WireError> {
    match c_take_str(r) {
        Err(e) => Err(e),
        Ok((name, k1)) => match c_take_str(r.skip(k1 as int)) {
            Err(e) => Err(e),
            Ok((mime, k2)) => match c_take_u64(r.skip((k1 + k2) as int)) {
                Err(e) => Err(e),
                Ok((size_bytes, k3)) => match take_file_tail(r.skip((k1 + k2 + k3) as int), name, mime, size_bytes) {
                    Err(e) => Err(e),
                    Ok((body, k)) => Ok((body, k1 + k2 + k3 + k)),
                },
            },
        },
    }
}

/// A status body's fields.
pub open spec fn take_status_fields(r: Seq<u8>) -> Result<(BodyView, nat), WireError> {
    match c_take_str(r) {
        Err(e) => Err(e),
        Ok((text, k1)) => match spec_take_opt_attachment(r.skip(k1 as int)) {
            Err(e) => Err(e),
            Ok((image, k2)) => match spec_take_opt_attachment(r.skip((k1 + k2) as int)) {
                Err(e) => Err(e),
                Ok((video, k3)) => match spec_take_opt_attachment(r.skip((k1 + k2 + k3) as int)) {
                    Err(e) => Err(e),
                    Ok((audio, k4)) => Ok((BodyView::Status { text, image, video, audio }, k1 + k2 + k3 + k4)),
                },
            },
        },
    }
}

/// A number field, wrapped into a body by `make`.
pub open spec fn take_u64_field(r: Seq<u8>, t: u32) -> Result<(BodyView, nat), WireError> {
    match c_take_u64(r) {
        Err(e) => Err(e),
        Ok((v, k)) => Ok(
            (
                if t == 3 {
                    BodyView::Ack(v)
                } else if t == 10 {
                    BodyView::Delete { target_id: v }
                } else {
                    BodyView::Read { up_to_sent_unix_ms: v }
                },
                k,
            ),
        ),
    }
}

/// An avatar update's fields.
pub open spec fn take_avatar_fields(r: Seq<u8>) -> Result<(BodyView, nat), WireError> {
    match c_take_str(r) {
        Err(e) => Err(e),
        Ok((blake3_hash, k1)) => match c_take_u64(r.skip(k1 as int)) {
            Err(e) => Err(e),
            Ok((size_bytes, k2)) => Ok((BodyView::AvatarUpdate { blake3_hash, size_bytes }, k1 + k2)),
        },
    }
}

/// A reaction's fields.
pub open spec fn take_reaction_fields(r: Seq<u8>) -> Result<(BodyView, nat), WireError> {
    match c_take_u64(r) {
        Err(e) => Err(e),
        Ok((target_id, k1)) => match c_take_str(r.skip(k1 as int)) {
            Err(e) => Err(e),
            Ok((emoji, k2)) => match c_take_bool(r.skip((k1 + k2) as int)) {
                Err(e) => Err(e),
                Ok((remove, k3)) => Ok((BodyView::Reaction { target_id, emoji, remove }, k1 + k2 + k3)),
            },
        },
    }
}

/// An edit's fields.
pub open spec fn take_edit_fields(r: Seq<u8>) -> Result<(BodyView, nat), WireError> {
    match c_take_u64(r) {
        Err(e) => Err(e),
        Ok((target_id, k1)) => match c_take_str(r.skip(k1 as int)) {
            Err(e) => Err(e),
            Ok((new_text, k2)) => Ok((BodyView::Edit { target_id, new_text }, k1 + k2)),
        },
    }
}

/// The fields of the body variant `t`, from the front of `r`.
pub open spec fn take_body_fields(r: Seq<u8>, t: u32) -> Result<(BodyView, nat), WireError> {
    if t == 0 {
        take_text_fields(r)
    } else if t == 1 {
        take_file_fields(r)
    } else if t == 2 {
        Ok((BodyView::Hello, 0))
    } else if t == 3 || t == 10 || t == 11 {
        take_u64_field(r, t)
    } else if t == 4 {
        Ok((BodyView::Typing, 0))
    } else if t == 5 {
        Ok((BodyView::Ping, 0))
    } else if t == 6 {
        take_status_fields(r)
    } else if t == 7 {
        take_avatar_fields(r)
    } else if t == 8 {
        take_reaction_fields(r)
    } else if t == 9 {
        take_edit_fields(r)
    } else {
        Err(WireError::UnknownVariant)
    }
}

/// A body read from the front of `b`.
pub open spec fn spec_take_body(b: Seq<u8>) -> Result<(BodyView, nat), WireError> {
    match c_take_tag(b) {
        Err(e) => Err(e),
        Ok((t, k0)) => match take_body_fields(b.skip(k0 as int), t) {
            Err(e) => Err(e),
            Ok((body, k)) => Ok((body, k0 + k)),
        },
    }
}

/// What serialized bytes decode to; bytes after the envelope are ignored.
pub open spec fn spec_decode_envelope(b: Seq<u8>) -> Result<EnvelopeView, WireError> {
    match c_take_u64(b) {
        Err(e) => Err(e),
        Ok((id, k1)) => match c_take_str(b.skip(k1 as int)) {
            Err(e) => Err(e),
            Ok((from_name, k2)) => match c_take_u64(b.skip((k1 + k2) as int)) {
                Err(e) => Err(e),
                Ok((sent_unix_ms, k3)) => match c_take_opt(b.skip((k1 + k2 + k3) as int)) {
                    Err(e) => Err(e),
                    Ok((expires_at_unix_ms, k4)) => match spec_take_body(b.skip((k1 + k2 + k3 + k4) as int)) {
                        Err(e) => Err(e),
                        Ok((body, _)) => Ok(EnvelopeView { id, from_name, sent_unix_ms, expires_at_unix_ms, body }),
                    },
                },
            },
        },
    }
}

/// Every string in the body fits a 64-bit length.
pub open spec fn str_fits(s: Seq<char>) -> bool {
    encode_utf8(s).len() <= u64::MAX
}

pub open spec fn opt_attachment_fits(o: Option<AttachmentView>) -> bool {
    match o {
        Some(a) => str_fits(a.blake3_hash),
        None => true,
    }
}

pub open spec fn body_fits(b: BodyView) -> bool {
    match b {
        BodyView::Text { text, .. } => str_fits(text),
        BodyView::File { name, mime, blake3_hash, .. } => str_fits(name) && str_fits(mime) && str_fits(blake3_hash),
        BodyView::Status { text, image, video, audio } => str_fits(text) && opt_attachment_fits(image)
            && opt_attachment_fits(video) && opt_attachment_fits(audio),
        BodyView::AvatarUpdate { blake3_hash, .. } => str_fits(blake3_hash),
        BodyView::Reaction { emoji, .. } => str_fits(emoji),
        BodyView::Edit { new_text, .. } => str_fits(new_text),
        _ => true,
    }
}

pub open spec fn envelope_fits(e: EnvelopeView) -> bool {
    str_fits(e.from_name) && body_fits(e.body)
}

proof fn lemma_attachment_roundtrip(a: AttachmentView, rest: Seq<u8>)
    requires
        str_fits(a.blake3_hash),
    ensures
        spec_take_attachment(enc_attachment(a) + rest) == Ok::<(AttachmentView, nat), WireError>(
            (a, enc_attachment(a).len()),
        ),
{
    let h = c_str(a.blake3_hash);
    let v = c_u64(a.size_bytes);
    let b = enc_attachment(a) + rest;
    assert(b =~= h + (v + rest));
    lemma_c_str(a.blake3_hash, v + rest);
    assert(b.skip(h.len() as int) =~= v + rest);
    lemma_c_u64(a.size_bytes, rest);
}

proof fn lemma_opt_attachment_roundtrip(o: Option<AttachmentView>, rest: Seq<u8>)
    requires
        opt_attachment_fits(o),
    ensures
        spec_take_opt_attachment(enc_opt_attachment(o) + rest) == Ok::<(Option<AttachmentView>, nat), WireError>(
            (o, enc_opt_attachment(o).len()),
        ),
{
    let b = enc_opt_attachment(o) + rest;
    assert(b[0] == enc_opt_attachment(o)[0]);
    if let Some(a) = o {
        assert(b.skip(1) =~= enc_attachment(a) + rest);
        lemma_attachment_roundtrip(a, rest);
    }
}

proof fn lemma_tag_roundtrip(t: u32, rest: Seq<u8>)
    ensures
        c_take_tag(tag(t as nat) + rest) == Ok::<(u32, nat), WireError>((t, tag(t as nat).len())),
{
    reveal(c_take_tag);
    reveal(c_tag);
    lemma_varint32_roundtrip(t, rest);
}

proof fn lemma_text_roundtrip(bv: BodyView, rest: Seq<u8>)
    requires
        body_fits(bv),
        bv is Text,
    ensures
        spec_take_body(enc_body(bv) + rest) == Ok::<(BodyView, nat), WireError>((bv, enc_body(bv).len())),
{
    let b = enc_body(bv) + rest;
    if let BodyView::Text { text, reply_to } = bv {
        let t = tag(0);
        let x1 = c_str(text);
        let x2 = c_opt(reply_to);
        assert(b =~= t + (x1 + (x2 + rest)));
        lemma_tag_roundtrip(0, x1 + (x2 + rest));
        assert(b.skip(t.len() as int) =~= x1 + (x2 + rest));
        lemma_c_str(text, x2 + rest);
        assert((x1 + (x2 + rest)).skip(x1.len() as int) =~= x2 + rest);
        lemma_c_opt(reply_to, rest);

    }
}

proof fn lemma_file_tail_roundtrip(
    compressed: bool,
    blake3_hash: Seq<char>,
    reply_to: Option<u64>,
    name: Seq<char>,
    mime: Seq<char>,
    size_bytes: u64,
    rest: Seq<u8>,
)
    requires
        str_fits(blake3_hash),
    ensures
        take_file_tail(
            c_bool(compressed) + (c_str(blake3_hash) + (c_opt(reply_to) + rest)),
            name,
            mime,
            size_bytes,
        ) == Ok::<(BodyView, nat), WireError>(
            (
                BodyView::File { name, mime, size_bytes, compressed, blake3_hash, reply_to },
                c_bool(compressed).len() + c_str(blake3_hash).len() + c_opt(reply_to).len(),
            ),
        ),
{
    let x4 = c_bool(compressed);
    let x5 = c_str(blake3_hash);
    let x6 = c_opt(reply_to);
    let r = x4 + (x5 + (x6 + rest));
    lemma_c_bool(compressed, x5 + (x6 + rest));
    assert(r.skip(x4.len() as int) =~= x5 + (x6 + rest));
    lemma_c_str(blake3_hash, x6 + rest);
    assert(r.skip((x4.len() + x5.len()) as int) =~= x6 + rest);
    lemma_c_opt(reply_to, rest);
}

#[verifier::rlimit(50)]
proof fn lemma_file_fields_roundtrip(
    name: Seq<char>,
    mime: Seq<char>,
    size_bytes: u64,
    compressed: bool,
    blake3_hash: Seq<char>,
    reply_to: Option<u64>,
    rest: Seq<u8>,
)
    requires
        str_fits(name),
        str_fits(mime),
        str_fits(blake3_hash),
    ensures
        ({
            let tail = c_bool(compressed) + (c_str(blake3_hash) + (c_opt(reply_to) + rest));
            take_file_fields(c_str(name) + (c_str(mime) + (c_u64(size_bytes) + tail)))
                == Ok::<(BodyView, nat), WireError>(
                (
                    BodyView::File { name, mime, size_bytes, compressed, blake3_hash, reply_to },
                    c_str(name).len() + c_str(mime).len() + c_u64(size_bytes).len() + c_bool(
                        compressed,
                    ).len() + c_str(blake3_hash).len() + c_opt(reply_to).len(),
                ),
            )
        }),
{
    let tail = c_bool(compressed) + (c_str(blake3_hash) + (c_opt(reply_to) + rest));
    let x1 = c_str(name);
    let x2 = c_str(mime);
    let x3 = c_u64(size_bytes);
    let r = x1 + (x2 + (x3 + tail));
    lemma_c_str(name, x2 + (x3 + tail));
    assert(r.skip(x1.len() as int) =~= x2 + (x3 + tail));
    lemma_c_str(mime, x3 + tail);
    assert(r.skip((x1.len() + x2.len()) as int) =~= x3 + tail);
    lemma_c_u64(size_bytes, tail);
    assert(r.skip((x1.len() + x2.len() + x3.len()) as int) =~= tail);
    lemma_file_tail_roundtrip(compressed, blake3_hash, reply_to, name, mime, size_bytes, rest);
}

#[verifier::rlimit(50)]
proof fn lemma_file_roundtrip(bv: BodyView, rest: Seq<u8>)
    requires
        body_fits(bv),
        bv is File,
    ensures
        spec_take_body(enc_body(bv) + rest) == Ok::<(BodyView, nat), WireError>((bv, enc_body(bv).len())),
{
    let b = enc_body(bv) + rest;
    if let BodyView::File { name, mime, size_bytes, compressed, blake3_hash, reply_to } = bv {
        let t = tag(1);
        let x1 = c_str(name);
        let x2 = c_str(mime);
        let x3 = c_u64(size_bytes);
        let x4 = c_bool(compressed);
        let x5 = c_str(blake3_hash);
        let x6 = c_opt(reply_to);
        let tail = x4 + (x5 + (x6 + rest));
        let r = x1 + (x2 + (x3 + tail));
        assert(b =~= t + r);
        lemma_tag_roundtrip(1, r);
        assert(b.skip(t.len() as int) =~= r);
        lemma_file_fields_roundtrip(name, mime, size_bytes, compressed, blake3_hash, reply_to, rest);
    }
}

proof fn lemma_hello_roundtrip(bv: BodyView, rest: Seq<u8>)
    requires
        body_fits(bv),
        bv is Hello,
    ensures
        spec_take_body(enc_body(bv) + rest) == Ok::<(BodyView, nat), WireError>((bv, enc_body(bv).len())),
{
    let b = enc_body(bv) + rest;
    if let BodyView::Hello = bv {
        lemma_tag_roundtrip(2, rest);

    }
}

proof fn lemma_ack_roundtrip(bv: BodyView, rest: Seq<u8>)
    requires
        body_fits(bv),
        bv is Ack,
    ensures
        spec_take_body(enc_body(bv) + rest) == Ok::<(BodyView, nat), WireError>((bv, enc_body(bv).len())),
{
    let b = enc_body(bv) + rest;
    if let BodyView::Ack(id) = bv {
        let t = tag(3);
        let x1 = c_u64(id);
        assert(b =~= t + (x1 + rest));
        lemma_tag_roundtrip(3, x1 + rest);
        assert(b.skip(t.len() as int) =~= x1 + rest);
        lemma_c_u64(id, rest);

    }
}

proof fn lemma_typing_roundtrip(bv: BodyView, rest: Seq<u8>)
    requires
        body_fits(bv),
        bv is Typing,
    ensures
        spec_take_body(enc_body(bv) + rest) == Ok::<(BodyView, nat), WireError>((bv, enc_body(bv).len())),
{
    let b = enc_body(bv) + rest;
    if let BodyView::Typing = bv {
        lemma_tag_roundtrip(4, rest);

    }
}

proof fn lemma_ping_roundtrip(bv: BodyView, rest: Seq<u8>)
    requires
        body_fits(bv),
        bv is Ping,
    ensures
        spec_take_body(enc_body(bv) + rest) == Ok::<(BodyView, nat), WireError>((bv, enc_body(bv).len())),
{
    let b = enc_body(bv) + rest;
    if let BodyView::Ping = bv {
        lemma_tag_roundtrip(5, rest);

    }
}

#[verifier::rlimit(50)]
proof fn lemma_status_fields_roundtrip(
    text: Seq<char>,
    image: Option<AttachmentView>,
    video: Option<AttachmentView>,
    audio: Option<AttachmentView>,
    rest: Seq<u8>,
)
    requires
        str_fits(text),
        opt_attachment_fits(image),
        opt_attachment_fits(video),
        opt_attachment_fits(audio),
    ensures
        take_status_fields(
            c_str(text) + (enc_opt_attachment(image) + (enc_opt_attachment(video) + (enc_opt_attachment(audio)
                + rest))),
        ) == Ok::<(BodyView, nat), WireError>(
            (
                BodyView::Status { text, image, video, audio },
                c_str(text).len() + enc_opt_attachment(image).len() + enc_opt_attachment(video).len()
                    + enc_opt_attachment(audio).len(),
            ),
        ),
{
    let x1 = c_str(text);
    let x2 = enc_opt_attachment(image);
    let x3 = enc_opt_attachment(video);
    let x4 = enc_opt_attachment(audio);
    let r = x1 + (x2 + (x3 + (x4 + rest)));
    lemma_c_str(text, x2 + (x3 + (x4 + rest)));
    assert(r.skip(x1.len() as int) =~= x2 + (x3 + (x4 + rest)));
    lemma_opt_attachment_roundtrip(image, x3 + (x4 + rest));
    assert(r.skip((x1.len() + x2.len()) as int) =~= x3 + (x4 + rest));
    lemma_opt_attachment_roundtrip(video, x4 + rest);
    assert(r.skip((x1.len() + x2.len() + x3.len()) as int) =~= x4 + rest);
    lemma_opt_attachment_roundtrip(audio, rest);
}

#[verifier::rlimit(50)]
proof fn lemma_status_roundtrip(bv: BodyView, rest: Seq<u8>)
    requires
        body_fits(bv),
        bv is Status,
    ensures
        spec_take_body(enc_body(bv) + rest) == Ok::<(BodyView, nat), WireError>((bv, enc_body(bv).len())),
{
    let b = enc_body(bv) + rest;
    if let BodyView::Status { text, image, video, audio } = bv {
        let t = tag(6);
        let x1 = c_str(text);
        let x2 = enc_opt_attachment(image);
        let x3 = enc_opt_attachment(video);
        let x4 = enc_opt_attachment(audio);
        let r = x1 + (x2 + (x3 + (x4 + rest)));
        assert(b =~= t + r);
        lemma_tag_roundtrip(6, r);
        assert(b.skip(t.len() as int) =~= r);
        lemma_status_fields_roundtrip(text, image, video, audio, rest);
    }
}

proof fn lemma_avatar_update_roundtrip(bv: BodyView, rest: Seq<u8>)
    requires
        body_fits(bv),
        bv is AvatarUpdate,
    ensures
        spec_take_body(enc_body(bv) + rest) == Ok::<(BodyView, nat), WireError>((bv, enc_body(bv).len())),
{
    let b = enc_body(bv) + rest;
    if let BodyView::AvatarUpdate { blake3_hash, size_bytes } = bv {
        let t = tag(7);
        let x1 = c_str(blake3_hash);
        let x2 = c_u64(size_bytes);
        assert(b =~= t + (x1 + (x2 + rest)));
        lemma_tag_roundtrip(7, x1 + (x2 + rest));
        assert(b.skip(t.len() as int) =~= x1 + (x2 + rest));
        lemma_c_str(blake3_hash, x2 + rest);
        assert((x1 + (x2 + rest)).skip(x1.len() as int) =~= x2 + rest);
        lemma_c_u64(size_bytes, rest);

    }
}

proof fn lemma_reaction_roundtrip(bv: BodyView, rest: Seq<u8>)
    requires
        body_fits(bv),
        bv is Reaction,
    ensures
        spec_take_body(enc_body(bv) + rest) == Ok::<(BodyView, nat), WireError>((bv, enc_body(bv).len())),
{
    let b = enc_body(bv) + rest;
    if let BodyView::Reaction { target_id, emoji, remove } = bv {
        let t = tag(8);
        let x1 = c_u64(target_id);
        let x2 = c_str(emoji);
        let x3 = c_bool(remove);
        let r = x1 + x2 + x3 + rest;
        assert(b =~= t + r);
        lemma_tag_roundtrip(8, r);
        assert(b.skip(t.len() as int) =~= r);
        assert(r =~= x1 + (x2 + x3 + rest));
        lemma_c_u64(target_id, x2 + x3 + rest);
        assert(r.skip(x1.len() as int) =~= x2 + (x3 + rest));
        lemma_c_str(emoji, x3 + rest);
        assert(r.skip((x1.len() + x2.len()) as int) =~= x3 + rest);
        lemma_c_bool(remove, rest);

    }
}

proof fn lemma_edit_roundtrip(bv: BodyView, rest: Seq<u8>)
    requires
        body_fits(bv),
        bv is Edit,
    ensures
        spec_take_body(enc_body(bv) + rest) == Ok::<(BodyView, nat), WireError>((bv, enc_body(bv).len())),
{
    let b = enc_body(bv) + rest;
    if let BodyView::Edit { target_id, new_text } = bv {
        let t = tag(9);
        let x1 = c_u64(target_id);
        let x2 = c_str(new_text);
        assert(b =~= t + (x1 + (x2 + rest)));
        lemma_tag_roundtrip(9, x1 + (x2 + rest));
        assert(b.skip(t.len() as int) =~= x1 + (x2 + rest));
        lemma_c_u64(target_id, x2 + rest);
        assert((x1 + (x2 + rest)).skip(x1.len() as int) =~= x2 + rest);
        lemma_c_str(new_text, rest);

    }
}

proof fn lemma_delete_roundtrip(bv: BodyView, rest: Seq<u8>)
    requires
        body_fits(bv),
        bv is Delete,
    ensures
        spec_take_body(enc_body(bv) + rest) == Ok::<(BodyView, nat), WireError>((bv, enc_body(bv).len())),
{
    let b = enc_body(bv) + rest;
    if let BodyView::Delete { target_id } = bv {
        let t = tag(10);
        let x1 = c_u64(target_id);
        assert(b =~= t + (x1 + rest));
        lemma_tag_roundtrip(10, x1 + rest);
        assert(b.skip(t.len() as int) =~= x1 + rest);
        lemma_c_u64(target_id, rest);

    }
}

proof fn lemma_read_roundtrip(bv: BodyView, rest: Seq<u8>)
    requires
        body_fits(bv),
        bv is Read,
    ensures
        spec_take_body(enc_body(bv) + rest) == Ok::<(BodyView, nat), WireError>((bv, enc_body(bv).len())),
{
    let b = enc_body(bv) + rest;
    if let BodyView::Read { up_to_sent_unix_ms } = bv {
        let t = tag(11);
        let x1 = c_u64(up_to_sent_unix_ms);
        assert(b =~= t + (x1 + rest));
        lemma_tag_roundtrip(11, x1 + rest);
        assert(b.skip(t.len() as int) =~= x1 + rest);
        lemma_c_u64(up_to_sent_unix_ms, rest);

    }
}

/// A body reads back as written, whatever follows it.
pub proof fn lemma_body_roundtrip(bv: BodyView, rest: Seq<u8>)
    requires
        body_fits(bv),
    ensures
        spec_take_body(enc_body(bv) + rest) == Ok::<(BodyView, nat), WireError>((bv, enc_body(bv).len())),
{
    match bv {
        BodyView::Text { .. } => lemma_text_roundtrip(bv, rest),
        BodyView::File { .. } => lemma_file_roundtrip(bv, rest),
        BodyView::Hello => lemma_hello_roundtrip(bv, rest),
        BodyView::Ack(..) => lemma_ack_roundtrip(bv, rest),
        BodyView::Typing => lemma_typing_roundtrip(bv, rest),
        BodyView::Ping => lemma_ping_roundtrip(bv, rest),
        BodyView::Status { .. } => lemma_status_roundtrip(bv, rest),
        BodyView::AvatarUpdate { .. } => lemma_avatar_update_roundtrip(bv, rest),
        BodyView::Reaction { .. } => lemma_reaction_roundtrip(bv, rest),
        BodyView::Edit { .. } => lemma_edit_roundtrip(bv, rest),
        BodyView::Delete { .. } => lemma_delete_roundtrip(bv, rest),
        BodyView::Read { .. } => lemma_read_roundtrip(bv, rest),
    }
}

/// An envelope reads back as written.
#[verifier::rlimit(50)]
pub proof fn lemma_envelope_roundtrip(e: EnvelopeView)
    requires
        envelope_fits(e),
    ensures
        spec_decode_envelope(spec_encode_envelope(e)) == Ok::<EnvelopeView, WireError>(e),
{
    let x1 = c_u64(e.id);
    let x2 = c_str(e.from_name);
    let x3 = c_u64(e.sent_unix_ms);
    let x4 = c_opt(e.expires_at_unix_ms);
    let x5 = enc_body(e.body);
    let empty = Seq::<u8>::empty();
    let b = spec_encode_envelope(e);
    assert(b =~= x1 + (x2 + x3 + x4 + x5 + empty));
    lemma_c_u64(e.id, x2 + x3 + x4 + x5 + empty);
    assert(b.skip(x1.len() as int) =~= x2 + (x3 + x4 + x5 + empty));
    lemma_c_str(e.from_name, x3 + x4 + x5 + empty);
    assert(b.skip((x1.len() + x2.len()) as int) =~= x3 + (x4 + x5 + empty));
    lemma_c_u64(e.sent_unix_ms, x4 + x5 + empty);
    assert(b.skip((x1.len() + x2.len() + x3.len()) as int) =~= x4 + (x5 + empty));
    lemma_c_opt(e.expires_at_unix_ms, x5 + empty);
    assert(b.skip((x1.len() + x2.len() + x3.len() + x4.len()) as int) =~= x5 + empty);
    lemma_body_roundtrip(e.body, empty);
}

fn tail(b: &[u8], k: usize) -> (r: &[u8])
    requires
        k <= b@.len(),
    ensures
        r@ == b@.skip(k as int),
{
    let r = b.split_at(k).1;
    proof {
        assert(r@ =~= b@.skip(k as int));
    }
    r
}

fn push_attachment(out: &mut Vec<u8>, hash: &String, size: u64)
    ensures
        final(out)@ == old(out)@ + enc_opt_attachment(Some(AttachmentView { blake3_hash: hash@, size_bytes: size })),
        str_fits(hash@),
{
    let ghost o = out@;
    out.push(1);
    push_c_str(out, hash.as_str());
    push_c_u64(out, size);
    proof {
        assert(out@ =~= o + enc_opt_attachment(Some(AttachmentView { blake3_hash: hash@, size_bytes: size })));
    }
}

fn push_none(out: &mut Vec<u8>)
    ensures
        final(out)@ == old(out)@ + enc_opt_attachment(None),
{
    out.push(0);
    proof {
        assert(final(out)@ =~= old(out)@ + enc_opt_attachment(None));
    }
}

fn push_image(out: &mut Vec<u8>, a: &Option<StatusImage>)
    ensures
        final(out)@ == old(out)@ + enc_opt_attachment(image_view(*a)),
        opt_attachment_fits(image_view(*a)),
{
    match a {
        Some(x) => push_attachment(out, &x.blake3_hash, x.size_bytes),
        None => push_none(out),
    }
}

fn push_video(out: &mut Vec<u8>, a: &Option<StatusVideo>)
    ensures
        final(out)@ == old(out)@ + enc_opt_attachment(video_view(*a)),
        opt_attachment_fits(video_view(*a)),
{
    match a {
        Some(x) => push_attachment(out, &x.blake3_hash, x.size_bytes),
        None => push_none(out),
    }
}

fn push_audio(out: &mut Vec<u8>, a: &Option<StatusAudio>)
    ensures
        final(out)@ == old(out)@ + enc_opt_attachment(audio_view(*a)),
        opt_attachment_fits(audio_view(*a)),
{
    match a {
        Some(x) => push_attachment(out, &x.blake3_hash, x.size_bytes),
        None => push_none(out),
    }
}

fn push_body(out: &mut Vec<u8>, b: &Body)
    ensures
        final(out)@ == old(out)@ + enc_body(body_view(*b)),
        body_fits(body_view(*b)),
{
    let ghost o = out@;
    match b {
        Body::Text { text, reply_to } => {
            push_tag(out, 0);
            push_c_str(out, text.as_str());
            push_c_opt(out, *reply_to);
        },
        Body::File { name, mime, size_bytes, compressed, blake3_hash, reply_to } => {
            push_tag(out, 1);
            push_c_str(out, name.as_str());
            push_c_str(out, mime.as_str());
            push_c_u64(out, *size_bytes);
            push_c_bool(out, *compressed);
            push_c_str(out, blake3_hash.as_str());
            push_c_opt(out, *reply_to);
        },
        Body::Hello => {
            push_tag(out, 2);
        },
        Body::Ack(id) => {
            push_tag(out, 3);
            push_c_u64(out, *id);
        },
        Body::Typing => {
            push_tag(out, 4);
        },
        Body::Ping => {
            push_tag(out, 5);
        },
        Body::Status { text, image, video, audio } => {
            push_tag(out, 6);
            push_c_str(out, text.as_str());
            push_image(out, image);
            push_video(out, video);
            push_audio(out, audio);
        },
        Body::AvatarUpdate { blake3_hash, size_bytes } => {
            push_tag(out, 7);
            push_c_str(out, blake3_hash.as_str());
            push_c_u64(out, *size_bytes);
        },
        Body::Reaction { target_id, emoji, remove } => {
            push_tag(out, 8);
            push_c_u64(out, *target_id);
            push_c_str(out, emoji.as_str());
            push_c_bool(out, *remove);
        },
        Body::Edit { target_id, new_text } => {
            push_tag(out, 9);
            push_c_u64(out, *target_id);
            push_c_str(out, new_text.as_str());
        },
        Body::Delete { target_id } => {
            push_tag(out, 10);
            push_c_u64(out, *target_id);
        },
        Body::Read { up_to_sent_unix_ms } => {
            push_tag(out, 11);
            push_c_u64(out, *up_to_sent_unix_ms);
        },
    }
    proof {
        assert(out@ =~= o + enc_body(body_view(*b)));
    }
}

/// The serialized form of an envelope, which decodes back to it.
pub fn encode_envelope(e: &Envelope) -> (r: Vec<u8>)
    ensures
        r@ == spec_encode_envelope(envelope_view(*e)),
        spec_decode_envelope(r@) == Ok::<EnvelopeView, WireError>(envelope_view(*e)),
{
    let mut out: Vec<u8> = Vec::new();
    push_c_u64(&mut out, e.id);
    push_c_str(&mut out, e.from_name.as_str());
    push_c_u64(&mut out, e.sent_unix_ms);
    push_c_opt(&mut out, e.expires_at_unix_ms);
    push_body(&mut out, &e.body);
    proof {
        assert(out@ =~= spec_encode_envelope(envelope_view(*e)));
        lemma_envelope_roundtrip(envelope_view(*e));
    }
    out
}

/// An attachment's hash and size as plain values.
pub open spec fn parts_view(p: Option<(String, u64)>) -> Option<AttachmentView> {
    match p {
        Some((h, sz)) => Some(AttachmentView { blake3_hash: h@, size_bytes: sz }),
        None => None,
    }
}

fn take_opt_attachment(b: &[u8]) -> (r: Result<(Option<(String, u64)>, usize), WireError>)
    ensures
        match r {
            Ok((v, k)) => spec_take_opt_attachment(b@) == Ok::<(Option<AttachmentView>, nat), WireError>(
                (parts_view(v), k as nat),
            ) && k <= b@.len(),
            Err(e) => spec_take_opt_attachment(b@) == Err::<(Option<AttachmentView>, nat), WireError>(e),
        },
{
    if b.len() == 0 {
        return Err(WireError::UnexpectedEnd);
    }
    if b[0] == 0 {
        return Ok((None, 1));
    }
    if b[0] != 1 {
        return Err(WireError::BadOption);
    }
    let r = tail(b, 1);
    let (h, k1) = match take_c_str(r) {
        Ok(x) => x,
        Err(e) => {
            return Err(e);
        },
    };
    let (sz, k2) = match take_c_u64(tail(r, k1)) {
        Ok(x) => x,
        Err(e) => {
            return Err(e);
        },
    };
    Ok((Some((h, sz)), 1 + k1 + k2))
}

fn to_image(p: Option<(String, u64)>) -> (r: Option<StatusImage>)
    ensures
        image_view(r) == parts_view(p),
{
    match p {
        Some((h, sz)) => Some(StatusImage { blake3_hash: h, size_bytes: sz }),
        None => None,
    }
}

fn to_video(p: Option<(String, u64)>) -> (r: Option<StatusVideo>)
    ensures
        video_view(r) == parts_view(p),
{
    match p {
        Some((h, sz)) => Some(StatusVideo { blake3_hash: h, size_bytes: sz }),
        None => None,
    }
}

fn to_audio(p: Option<(String, u64)>) -> (r: Option<StatusAudio>)
    ensures
        audio_view(r) == parts_view(p),
{
    match p {
        Some((h, sz)) => Some(StatusAudio { blake3_hash: h, size_bytes: sz }),
        None => None,
    }
}

fn take_text_body(r: &[u8]) -> (res: Result<(Body, usize), WireError>)
    ensures
        match res {
            Ok((body, k)) => take_text_fields(r@) == Ok::<(BodyView, nat), WireError>((body_view(body), k as nat)) && k <= r@.len(),
            Err(e) => take_text_fields(r@) == Err::<(BodyView, nat), WireError>(e),
        },
{
    let total = r.len();
    proof {
        assert(r@.len() == total);
    }
    let (text, k1) = match take_c_str(r) {
        Ok(x) => x,
        Err(e) => {
            return Err(e);
        },
    };
    let (reply_to, k2) = match take_c_opt(tail(r, k1)) {
        Ok(x) => x,
        Err(e) => {
            return Err(e);
        },
    };
    Ok((Body::Text { text, reply_to }, k1 + k2))
}

fn take_file_body(r: &[u8]) -> (res: Result<(Body, usize), WireError>)
    ensures
        match res {
            Ok((body, k)) => take_file_fields(r@) == Ok::<(BodyView, nat), WireError>((body_view(body), k as nat)) && k <= r@.len(),
            Err(e) => take_file_fields(r@) == Err::<(BodyView, nat), WireError>(e),
        },
{
    let total = r.len();
    proof {
        assert(r@.len() == total);
    }
    let (name, k1) = match take_c_str(r) {
        Ok(x) => x,
        Err(e) => {
            return Err(e);
        },
    };
    let (mime, k2) = match take_c_str(tail(r, k1)) {
        Ok(x) => x,
        Err(e) => {
            return Err(e);
        },
    };
    let (size_bytes, k3) = match take_c_u64(tail(r, k1 + k2)) {
        Ok(x) => x,
        Err(e) => {
            return Err(e);
        },
    };
    let r4 = tail(r, k1 + k2 + k3);
    let (compressed, k4) = match take_c_bool(r4) {
        Ok(x) => x,
        Err(e) => {
            return Err(e);
        },
    };
    let (blake3_hash, k5) = match take_c_str(tail(r4, k4)) {
        Ok(x) => x,
        Err(e) => {
            return Err(e);
        },
    };
    let (reply_to, k6) = match take_c_opt(tail(r4, k4 + k5)) {
        Ok(x) => x,
        Err(e) => {
            return Err(e);
        },
    };
    Ok((Body::File { name, mime, size_bytes, compressed, blake3_hash, reply_to }, k1 + k2 + k3 + k4 + k5 + k6))
}

fn take_number_body(r: &[u8], t: u32) -> (res: Result<(Body, usize), WireError>)
    ensures
        match res {
            Ok((body, k)) => take_u64_field(r@, t) == Ok::<(BodyView, nat), WireError>((body_view(body), k as nat)) && k <= r@.len(),
            Err(e) => take_u64_field(r@, t) == Err::<(BodyView, nat), WireError>(e),
        },
{
    let total = r.len();
    proof {
        assert(r@.len() == total);
    }
    let (v, k1) = match take_c_u64(r) {
        Ok(x) => x,
        Err(e) => {
            return Err(e);
        },
    };
    let body = if t == 3 {
        Body::Ack(v)
    } else if t == 10 {
        Body::Delete { target_id: v }
    } else {
        Body::Read { up_to_sent_unix_ms: v }
    };
    Ok((body, k1))
}

fn take_status_body(r: &[u8]) -> (res: Result<(Body, usize), WireError>)
    ensures
        match res {
            Ok((body, k)) => take_status_fields(r@) == Ok::<(BodyView, nat), WireError>((body_view(body), k as nat)) && k <= r@.len(),
            Err(e) => take_status_fields(r@) == Err::<(BodyView, nat), WireError>(e),
        },
{
    let total = r.len();
    proof {
        assert(r@.len() == total);
    }
    let (text, k1) = match take_c_str(r) {
        Ok(x) => x,
        Err(e) => {
            return Err(e);
        },
    };
    let (image, k2) = match take_opt_attachment(tail(r, k1)) {
        Ok(x) => x,
        Err(e) => {
            return Err(e);
        },
    };
    let (video, k3) = match take_opt_attachment(tail(r, k1 + k2)) {
        Ok(x) => x,
        Err(e) => {
            return Err(e);
        },
    };
    let (audio, k4) = match take_opt_attachment(tail(r, k1 + k2 + k3)) {
        Ok(x) => x,
        Err(e) => {
            return Err(e);
        },
    };
    Ok(
        (
            Body::Status { text, image: to_image(image), video: to_video(video), audio: to_audio(audio) },
            k1 + k2 + k3 + k4,
        ),
    )
}

fn take_avatar_body(r: &[u8]) -> (res: Result<(Body, usize), WireError>)
    ensures
        match res {
            Ok((body, k)) => take_avatar_fields(r@) == Ok::<(BodyView, nat), WireError>((body_view(body), k as nat)) && k <= r@.len(),
            Err(e) => take_avatar_fields(r@) == Err::<(BodyView, nat), WireError>(e),
        },
{
    let total = r.len();
    proof {
        assert(r@.len() == total);
    }
    let (blake3_hash, k1) = match take_c_str(r) {
        Ok(x) => x,
        Err(e) => {
            return Err(e);
        },
    };
    let (size_bytes, k2) = match take_c_u64(tail(r, k1)) {
        Ok(x) => x,
        Err(e) => {
            return Err(e);
        },
    };
    Ok((Body::AvatarUpdate { blake3_hash, size_bytes }, k1 + k2))
}

fn take_reaction_body(r: &[u8]) -> (res: Result<(Body, usize), WireError>)
    ensures
        match res {
            Ok((body, k)) => take_reaction_fields(r@) == Ok::<(BodyView, nat), WireError>((body_view(body), k as nat)) && k <= r@.len(),
            Err(e) => take_reaction_fields(r@) == Err::<(BodyView, nat), WireError>(e),
        },
{
    let total = r.len();
    proof {
        assert(r@.len() == total);
    }
    let (target_id, k1) = match take_c_u64(r) {
        Ok(x) => x,
        Err(e) => {
            return Err(e);
        },
    };
    let (emoji, k2) = match take_c_str(tail(r, k1)) {
        Ok(x) => x,
        Err(e) => {
            return Err(e);
        },
    };
    let (remove, k3) = match take_c_bool(tail(r, k1 + k2)) {
        Ok(x) => x,
        Err(e) => {
            return Err(e);
        },
    };
    Ok((Body::Reaction { target_id, emoji, remove }, k1 + k2 + k3))
}

fn take_edit_body(r: &[u8]) -> (res: Result<(Body, usize), WireError>)
    ensures
        match res {
            Ok((body, k)) => take_edit_fields(r@) == Ok::<(BodyView, nat), WireError>((body_view(body), k as nat)) && k <= r@.len(),
            Err(e) => take_edit_fields(r@) == Err::<(BodyView, nat), WireError>(e),
        },
{
    let total = r.len();
    proof {
        assert(r@.len() == total);
    }
    let (target_id, k1) = match take_c_u64(r) {
        Ok(x) => x,
        Err(e) => {
            return Err(e);
        },
    };
    let (new_text, k2) = match take_c_str(tail(r, k1)) {
        Ok(x) => x,
        Err(e) => {
            return Err(e);
        },
    };
    Ok((Body::Edit { target_id, new_text }, k1 + k2))
}

fn take_body(b: &[u8]) -> (r: Result<(Body, usize), WireError>)
    ensures
        match r {
            Ok((body, k)) => spec_take_body(b@) == Ok::<(BodyView, nat), WireError>((body_view(body), k as nat)),
            Err(e) => spec_take_body(b@) == Err::<(BodyView, nat), WireError>(e),
        },
        r matches Ok((body, k)) ==> k <= b@.len(),
{
    let total = b.len();
    proof {
        assert(b@.len() == total);
    }
    let (t, k0) = match take_tag(b) {
        Ok(x) => x,
        Err(e) => {
            return Err(e);
        },
    };
    let r = tail(b, k0);
    let fields = if t == 0 {
        take_text_body(r)
    } else if t == 1 {
        take_file_body(r)
    } else if t == 2 {
        Ok((Body::Hello, 0))
    } else if t == 3 || t == 10 || t == 11 {
        take_number_body(r, t)
    } else if t == 4 {
        Ok((Body::Typing, 0))
    } else if t == 5 {
        Ok((Body::Ping, 0))
    } else if t == 6 {
        take_status_body(r)
    } else if t == 7 {
        take_avatar_body(r)
    } else if t == 8 {
        take_reaction_body(r)
    } else if t == 9 {
        take_edit_body(r)
    } else {
        Err(WireError::UnknownVariant)
    };
    match fields {
        Ok((body, k)) => Ok((body, k0 + k)),
        Err(e) => Err(e),
    }
}

/// Decodes a serialized envelope; bytes after it are ignored.
pub fn decode_envelope(b: &[u8]) -> (r: Result<Envelope, WireError>)
    ensures
        match r {
            Ok(e) => spec_decode_envelope(b@) == Ok::<EnvelopeView, WireError>(envelope_view(e)),
            Err(err) => spec_decode_envelope(b@) == Err::<EnvelopeView, WireError>(err),
        },
{
    let total = b.len();
    proof {
        assert(b@.len() == total);
    }
    let (id, k1) = match take_c_u64(b) {
        Ok(x) => x,
        Err(e) => {
            return Err(e);
        },
    };
    let (from_name, k2) = match take_c_str(tail(b, k1)) {
        Ok(x) => x,
        Err(e) => {
            return Err(e);
        },
    };
    let (sent_unix_ms, k3) = match take_c_u64(tail(b, k1 + k2)) {
        Ok(x) => x,
        Err(e) => {
            return Err(e);
        },
    };
    let (expires_at_unix_ms, k4) = match take_c_opt(tail(b, k1 + k2 + k3)) {
        Ok(x) => x,
        Err(e) => {
            return Err(e);
        },
    };
    let (body, _k5) = match take_body(tail(b, k1 + k2 + k3 + k4)) {
        Ok(x) => x,
        Err(e) => {
            return Err(e);
        },
    };
    Ok(Envelope { id, from_name, sent_unix_ms, expires_at_unix_ms, body })
}

/// Why received bytes are not an envelope.
#[derive(Debug, Clone, Copy, PartialEq, Eq, Structural)]
pub enum MessageError {
    /// The frame around it is broken.
    Frame(FrameError),
    /// The serialized envelope inside is malformed.
    Wire(WireError),
}

/// What received bytes open to: the frame, then the envelope inside.
pub open spec fn spec_decode_message(bytes: Seq<u8>) -> Result<EnvelopeView, MessageError> {
    match spec_decode_frame(bytes) {
        Err(e) => Err(MessageError::Frame(e)),
        Ok(raw) => match spec_decode_envelope(raw) {
            Err(e) => Err(MessageError::Wire(e)),
            Ok(v) => Ok(v),
        },
    }
}

impl Envelope {
    /// Serializes, then frames (compressing only where that shrinks the
    /// bytes; if compression fails the frame is raw). Never fails; an
    /// envelope within the size cap decodes back to itself.
    pub fn encode(&self) -> (r: Result<Vec<u8>, MessageError>)
        ensures
            r matches Ok(bytes) && (bytes@ == spec_encode_frame(spec_encode_envelope(envelope_view(*self)), None)
                || bytes@ == spec_encode_frame(
                spec_encode_envelope(envelope_view(*self)),
                Some(spec_zstd_encode_all(spec_encode_envelope(envelope_view(*self)), ZSTD_LEVEL)),
            )),
            spec_encode_envelope(envelope_view(*self)).len() <= MAX_MESSAGE_BYTES ==> (r matches Ok(bytes)
                && spec_decode_message(bytes@) == Ok::<EnvelopeView, MessageError>(envelope_view(*self))),
    {
        let raw = encode_envelope(self);
        Ok(encode_frame(raw))
    }

    /// Opens the frame and reads the envelope inside.
    pub fn decode(bytes: &[u8]) -> (r: Result<Envelope, MessageError>)
        ensures
            match r {
                Ok(e) => spec_decode_message(bytes@) == Ok::<EnvelopeView, MessageError>(envelope_view(e)),
                Err(err) => spec_decode_message(bytes@) == Err::<EnvelopeView, MessageError>(err) || (err
                    == MessageError::Frame(FrameError::Decompress) && bytes@[0] == TAG_ZSTD),
            },
            spec_decode_message(bytes@) is Err ==> r is Err,
    {
        let raw = match decode_frame(bytes) {
            Ok(raw) => raw,
            Err(e) => {
                return Err(MessageError::Frame(e));
            },
        };
        match decode_envelope(raw.as_slice()) {
            Ok(e) => Ok(e),
            Err(e) => Err(MessageError::Wire(e)),
        }
    }
}

} // verus!
