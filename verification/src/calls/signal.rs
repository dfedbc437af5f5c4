//! Call signalling: the invite and the answer exchanged before media
//! flows, with their wire form (postcard's layout). Each side lists the
//! codecs it can encode and decode; see `crate::calls::plan` for what each
//! side then decides.
use vstd::prelude::*;
use vstd::utf8::encode_utf8;
use crate::calls::codec::{VideoCodec, available_hw_decode_codecs, available_hw_encode_codecs};
use crate::calls::plan::CallPlan;
use crate::calls::video_wire::{enc_codec_list, lemma_codec_list_roundtrip, push_codec_list, spec_take_codec_list, take_codec_list};
use crate::varint::{WireError, lemma_varint32_roundtrip};
use crate::wire::{
    c_bool, c_str, c_tag, c_take_bool, c_take_str, c_take_tag, lemma_c_bool, lemma_c_str, push_array32, push_c_bool,
    push_c_str, push_tag, take_array32, take_c_bool, take_c_str, take_tag,
};

verus! {

/// The signalling messages of a call.
#[derive(Debug, Clone)]
pub enum CallMsg {
    /// The caller's invitation.
    Invite {
        from_id: [u8; 32],
        from_name: String,
        want_video: bool,
        encode_codecs: Vec<VideoCodec>,
        decode_codecs: Vec<VideoCodec>,
    },
    /// The callee's answer.
    Answer {
        accepted: bool,
        video_accepted: bool,
        encode_codecs: Vec<VideoCodec>,
        decode_codecs: Vec<VideoCodec>,
    },
}

/// A signalling message as plain values.
pub enum CallMsgView {
    Invite {
        from_id: Seq<u8>,
        from_name: Seq<char>,
        want_video: bool,
        encode_codecs: Seq<VideoCodec>,
        decode_codecs: Seq<VideoCodec>,
    },
    Answer {
        accepted: bool,
        video_accepted: bool,
        encode_codecs: Seq<VideoCodec>,
        decode_codecs: Seq<VideoCodec>,
    },
}

pub open spec fn call_msg_view(m: CallMsg) -> CallMsgView {
    match m {
        CallMsg::Invite { from_id, from_name, want_video, encode_codecs, decode_codecs } => CallMsgView::Invite {
            from_id: from_id@,
            from_name: from_name@,
            want_video,
            encode_codecs: encode_codecs@,
            decode_codecs: decode_codecs@,
        },
        CallMsg::Answer { accepted, video_accepted, encode_codecs, decode_codecs } => CallMsgView::Answer {
            accepted,
            video_accepted,
            encode_codecs: encode_codecs@,
            decode_codecs: decode_codecs@,
        },
    }
}

/// A codec list, opaque here so proofs use only its read-back fact.
#[verifier::opaque]
pub open spec fn c_codecs(cs: Seq<VideoCodec>) -> Seq<u8> {
    enc_codec_list(cs)
}

#[verifier::opaque]
pub open spec fn c_take_codecs(b: Seq<u8>) -> Result<(Seq<VideoCodec>, nat), WireError> {
    spec_take_codec_list(b)
}

proof fn lemma_c_codecs(cs: Seq<VideoCodec>, rest: Seq<u8>)
    requires
        cs.len() <= u64::MAX,
    ensures
        c_take_codecs(c_codecs(cs) + rest) == Ok::<(Seq<VideoCodec>, nat), WireError>((cs, c_codecs(cs).len())),
{
    reveal(c_take_codecs);
    reveal(c_codecs);
    lemma_codec_list_roundtrip(cs, rest);
}

/// The wire form: variant index, then the fields in order.
pub open spec fn spec_encode_call_msg(m: CallMsgView) -> Seq<u8> {
    match m {
        CallMsgView::Invite { from_id, from_name, want_video, encode_codecs, decode_codecs } => c_tag(0) + (from_id
            + (c_str(from_name) + (c_bool(want_video) + (c_codecs(encode_codecs) + c_codecs(decode_codecs))))),
        CallMsgView::Answer { accepted, video_accepted, encode_codecs, decode_codecs } => c_tag(1) + (c_bool(
            accepted,
        ) + (c_bool(video_accepted) + (c_codecs(encode_codecs) + c_codecs(decode_codecs)))),
    }
}

/// The two codec lists at the end of both messages.
pub open spec fn take_two_lists(r: Seq<u8>) -> Result<(Seq<VideoCodec>, Seq<VideoCodec>), WireError> {
    match c_take_codecs(r) {
        Err(e) => Err(e),
        Ok((enc, k1)) => match c_take_codecs(r.skip(k1 as int)) {
            Err(e) => Err(e),
            Ok((dec, _)) => Ok((enc, dec)),
        },
    }
}

/// An invite's fields after the sender id.
pub open spec fn take_invite_fields(r: Seq<u8>, from_id: Seq<u8>) -> Result<CallMsgView, WireError> {
    match c_take_str(r) {
        Err(e) => Err(e),
        Ok((from_name, k1)) => match c_take_bool(r.skip(k1 as int)) {
            Err(e) => Err(e),
            Ok((want_video, k2)) => match take_two_lists(r.skip((k1 + k2) as int)) {
                Err(e) => Err(e),
                Ok((encode_codecs, decode_codecs)) => Ok(
                    CallMsgView::Invite { from_id, from_name, want_video, encode_codecs, decode_codecs },
                ),
            },
        },
    }
}

/// An answer's fields.
pub open spec fn take_answer_fields(r: Seq<u8>) -> Result<CallMsgView, WireError> {
    match c_take_bool(r) {
        Err(e) => Err(e),
        Ok((accepted, k1)) => match c_take_bool(r.skip(k1 as int)) {
            Err(e) => Err(e),
            Ok((video_accepted, k2)) => match take_two_lists(r.skip((k1 + k2) as int)) {
                Err(e) => Err(e),
                Ok((encode_codecs, decode_codecs)) => Ok(
                    CallMsgView::Answer { accepted, video_accepted, encode_codecs, decode_codecs },
                ),
            },
        },
    }
}

/// What bytes decode to; trailing bytes are ignored.
pub open spec fn spec_decode_call_msg(b: Seq<u8>) -> Result<CallMsgView, WireError> {
    match c_take_tag(b) {
        Err(e) => Err(e),
        Ok((t, k0)) => {
            let r = b.skip(k0 as int);
            if t == 0 {
                if r.len() < 32 {
                    Err(WireError::UnexpectedEnd)
                } else {
                    take_invite_fields(r.skip(32), r.subrange(0, 32))
                }
            } else if t == 1 {
                take_answer_fields(r)
            } else {
                Err(WireError::UnknownVariant)
            }
        },
    }
}

/// The message's lengths fit the wire's 64-bit length fields.
pub open spec fn call_msg_fits(m: CallMsgView) -> bool {
    match m {
        CallMsgView::Invite { from_id, from_name, encode_codecs, decode_codecs, .. } => from_id.len() == 32
            && encode_utf8(from_name).len() <= u64::MAX && encode_codecs.len() <= u64::MAX && decode_codecs.len()
            <= u64::MAX,
        CallMsgView::Answer { encode_codecs, decode_codecs, .. } => encode_codecs.len() <= u64::MAX
            && decode_codecs.len() <= u64::MAX,
    }
}

proof fn lemma_two_lists(enc: Seq<VideoCodec>, dec: Seq<VideoCodec>)
    requires
        enc.len() <= u64::MAX,
        dec.len() <= u64::MAX,
    ensures
        take_two_lists(c_codecs(enc) + c_codecs(dec)) == Ok::<(Seq<VideoCodec>, Seq<VideoCodec>), WireError>(
            (enc, dec),
        ),
{
    let x = c_codecs(enc);
    let y = c_codecs(dec);
    lemma_c_codecs(enc, y);
    assert((x + y).skip(x.len() as int) =~= y + Seq::<u8>::empty());
    lemma_c_codecs(dec, Seq::<u8>::empty());
}

proof fn lemma_tag_then(t: u32, rest: Seq<u8>)
    ensures
        c_take_tag(c_tag(t as nat) + rest) == Ok::<(u32, nat), WireError>((t, c_tag(t as nat).len())),
{
    reveal(crate::wire::c_take_tag);
    reveal(crate::wire::c_tag);
    lemma_varint32_roundtrip(t, rest);
}

/// A signalling message reads back as written.
pub proof fn lemma_call_msg_roundtrip(m: CallMsgView)
    requires
        call_msg_fits(m),
    ensures
        spec_decode_call_msg(spec_encode_call_msg(m)) == Ok::<CallMsgView, WireError>(m),
{
    match m {
        CallMsgView::Invite { from_id, from_name, want_video, encode_codecs, decode_codecs } => {
            let x2 = c_str(from_name);
            let x3 = c_bool(want_video);
            let x4 = c_codecs(encode_codecs) + c_codecs(decode_codecs);
            let r = from_id + (x2 + (x3 + x4));
            lemma_tag_then(0, r);
            assert(spec_encode_call_msg(m).skip(c_tag(0).len() as int) =~= r);
            assert(r.subrange(0, 32) =~= from_id);
            let r2 = r.skip(32);
            assert(r2 =~= x2 + (x3 + x4));
            lemma_c_str(from_name, x3 + x4);
            assert(r2.skip(x2.len() as int) =~= x3 + x4);
            lemma_c_bool(want_video, x4);
            assert(r2.skip((x2.len() + x3.len()) as int) =~= x4);
            lemma_two_lists(encode_codecs, decode_codecs);
        },
        CallMsgView::Answer { accepted, video_accepted, encode_codecs, decode_codecs } => {
            let x1 = c_bool(accepted);
            let x2 = c_bool(video_accepted);
            let x3 = c_codecs(encode_codecs) + c_codecs(decode_codecs);
            let r = x1 + (x2 + x3);
            lemma_tag_then(1, r);
            assert(spec_encode_call_msg(m).skip(c_tag(1).len() as int) =~= r);
            lemma_c_bool(accepted, x2 + x3);
            assert(r.skip(x1.len() as int) =~= x2 + x3);
            lemma_c_bool(video_accepted, x3);
            assert(r.skip((x1.len() + x2.len()) as int) =~= x3);
            lemma_two_lists(encode_codecs, decode_codecs);
        },
    }
}

fn push_c_codecs(out: &mut Vec<u8>, cs: &Vec<VideoCodec>)
    ensures
        final(out)@ == old(out)@ + c_codecs(cs@),
        cs@.len() <= u64::MAX,
{
    push_codec_list(out, cs.as_slice());
    proof {
        reveal(c_codecs);
    }
}

fn take_c_codecs(b: &[u8]) -> (r: Result<(Vec<VideoCodec>, usize), WireError>)
    ensures
        match r {
            Ok((cs, k)) => c_take_codecs(b@) == Ok::<(Seq<VideoCodec>, nat), WireError>((cs@, k as nat)) && k
                <= b@.len(),
            Err(e) => c_take_codecs(b@) == Err::<(Seq<VideoCodec>, nat), WireError>(e),
        },
{
    proof {
        reveal(c_take_codecs);
    }
    take_codec_list(b)
}

fn take_lists(r: &[u8]) -> (res: Result<(Vec<VideoCodec>, Vec<VideoCodec>), WireError>)
    ensures
        match res {
            Ok((e, d)) => take_two_lists(r@) == Ok::<(Seq<VideoCodec>, Seq<VideoCodec>), WireError>((e@, d@)),
            Err(err) => take_two_lists(r@) == Err::<(Seq<VideoCodec>, Seq<VideoCodec>), WireError>(err),
        },
{
    let (enc, k1) = match take_c_codecs(r) {
        Ok(x) => x,
        Err(e) => {
            return Err(e);
        },
    };
    let rest = r.split_at(k1).1;
    proof {
        assert(rest@ =~= r@.skip(k1 as int));
    }
    match take_c_codecs(rest) {
        Ok((dec, _)) => Ok((enc, dec)),
        Err(e) => Err(e),
    }
}

impl CallMsg {
    /// An invitation from this device, listing the codecs it can encode
    /// and decode.
    pub fn invite(from_id: [u8; 32], from_name: String, want_video: bool) -> (r: CallMsg)
        ensures
            call_msg_view(r) == (CallMsgView::Invite {
                from_id: from_id@,
                from_name: from_name@,
                want_video,
                encode_codecs: seq![VideoCodec::Av1],
                decode_codecs: seq![VideoCodec::Av1],
            }),
    {
        CallMsg::Invite {
            from_id,
            from_name,
            want_video,
            encode_codecs: available_hw_encode_codecs(),
            decode_codecs: available_hw_decode_codecs(),
        }
    }

    /// The answer this device sends once the callee has decided and the
    /// plan is made.
    pub fn answer(accepted: bool, plan: &CallPlan) -> (r: CallMsg)
        ensures
            call_msg_view(r) == (CallMsgView::Answer {
                accepted,
                video_accepted: plan.video,
                encode_codecs: seq![VideoCodec::Av1],
                decode_codecs: seq![VideoCodec::Av1],
            }),
    {
        CallMsg::Answer {
            accepted,
            video_accepted: plan.video,
            encode_codecs: available_hw_encode_codecs(),
            decode_codecs: available_hw_decode_codecs(),
        }
    }

    /// The wire form, which decodes back to this message.
    pub fn encode(&self) -> (r: Vec<u8>)
        ensures
            r@ == spec_encode_call_msg(call_msg_view(*self)),
            spec_decode_call_msg(r@) == Ok::<CallMsgView, WireError>(call_msg_view(*self)),
    {
        let mut out: Vec<u8> = Vec::new();
        match self {
            CallMsg::Invite { from_id, from_name, want_video, encode_codecs, decode_codecs } => {
                push_tag(&mut out, 0);
                push_array32(&mut out, from_id);
                push_c_str(&mut out, from_name.as_str());
                push_c_bool(&mut out, *want_video);
                push_c_codecs(&mut out, encode_codecs);
                push_c_codecs(&mut out, decode_codecs);
            },
            CallMsg::Answer { accepted, video_accepted, encode_codecs, decode_codecs } => {
                push_tag(&mut out, 1);
                push_c_bool(&mut out, *accepted);
                push_c_bool(&mut out, *video_accepted);
                push_c_codecs(&mut out, encode_codecs);
                push_c_codecs(&mut out, decode_codecs);
            },
        }
        proof {
            assert(out@ =~= spec_encode_call_msg(call_msg_view(*self)));
            lemma_call_msg_roundtrip(call_msg_view(*self));
        }
        out
    }

    /// Reads a signalling message from received bytes.
    pub fn decode(bytes: &[u8]) -> (r: Result<CallMsg, WireError>)
        ensures
            match r {
                Ok(m) => spec_decode_call_msg(bytes@) == Ok::<CallMsgView, WireError>(call_msg_view(m)),
                Err(e) => spec_decode_call_msg(bytes@) == Err::<CallMsgView, WireError>(e),
            },
    {
        let (t, k0) = match take_tag(bytes) {
            Ok(x) => x,
            Err(e) => {
                return Err(e);
            },
        };
        let r = bytes.split_at(k0).1;
        proof {
            assert(r@ =~= bytes@.skip(k0 as int));
        }
        if t == 0 {
            let (from_id, _) = match take_array32(r) {
                Ok(x) => x,
                Err(e) => {
                    return Err(e);
                },
            };
            let r2 = r.split_at(32).1;
            proof {
                assert(r2@ =~= r@.skip(32));
            }
            let (from_name, k1) = match take_c_str(r2) {
                Ok(x) => x,
                Err(e) => {
                    return Err(e);
                },
            };
            let r3 = r2.split_at(k1).1;
            proof {
                assert(r3@ =~= r2@.skip(k1 as int));
            }
            let (want_video, k2) = match take_c_bool(r3) {
                Ok(x) => x,
                Err(e) => {
                    return Err(e);
                },
            };
            let r4 = r3.split_at(k2).1;
            proof {
                assert(r4@ =~= r2@.skip((k1 + k2) as int));
            }
            match take_lists(r4) {
                Ok((encode_codecs, decode_codecs)) => Ok(
                    CallMsg::Invite { from_id, from_name, want_video, encode_codecs, decode_codecs },
                ),
                Err(e) => Err(e),
            }
        } else if t == 1 {
            let (accepted, k1) = match take_c_bool(r) {
                Ok(x) => x,
                Err(e) => {
                    return Err(e);
                },
            };
            let r2 = r.split_at(k1).1;
            proof {
                assert(r2@ =~= r@.skip(k1 as int));
            }
            let (video_accepted, k2) = match take_c_bool(r2) {
                Ok(x) => x,
                Err(e) => {
                    return Err(e);
                },
            };
            let r3 = r2.split_at(k2).1;
            proof {
                assert(r3@ =~= r@.skip((k1 + k2) as int));
            }
            match take_lists(r3) {
                Ok((encode_codecs, decode_codecs)) => Ok(
                    CallMsg::Answer { accepted, video_accepted, encode_codecs, decode_codecs },
                ),
                Err(e) => Err(e),
            }
        } else {
            Err(WireError::UnknownVariant)
        }
    }
}

} // verus!
