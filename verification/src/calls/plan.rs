//! What a call's two ends decide from the invite and the answer: whether
//! video runs, and which codec each direction uses. Each side picks its
//! sending codec from the other side's decoders.
use vstd::prelude::*;
use crate::calls::codec::{VideoCodec, negotiate_send_codec, spec_send_codec};

verus! {

/// One side's video decisions for a call.
#[derive(Debug, Clone, Copy, PartialEq, Eq, Structural)]
pub struct CallPlan {
    /// Whether video runs alongside audio.
    pub video: bool,
    /// The codec this side sends with, if any fits.
    pub send_codec: Option<VideoCodec>,
    /// The codec this side receives, if any fits.
    pub receive_codec: Option<VideoCodec>,
}

/// The callee's plan: video only where the call was accepted, the caller
/// asked for video, both directions have a codec, and a camera is there.
pub open spec fn spec_answer_plan(
    accepted: bool,
    want_video: bool,
    camera_available: bool,
    my_encode: Seq<VideoCodec>,
    my_decode: Seq<VideoCodec>,
    peer_encode: Seq<VideoCodec>,
    peer_decode: Seq<VideoCodec>,
) -> CallPlan {
    let send = spec_send_codec(my_encode, peer_decode);
    let receive = spec_send_codec(peer_encode, my_decode);
    CallPlan {
        video: accepted && want_video && send is Some && receive is Some && camera_available,
        send_codec: send,
        receive_codec: receive,
    }
}

/// The caller's plan once the answer is in: video where the callee
/// accepted it and both directions have a codec.
pub open spec fn spec_caller_plan(
    peer_video_accepted: bool,
    my_encode: Seq<VideoCodec>,
    my_decode: Seq<VideoCodec>,
    peer_encode: Seq<VideoCodec>,
    peer_decode: Seq<VideoCodec>,
) -> CallPlan {
    let send = spec_send_codec(my_encode, peer_decode);
    let receive = spec_send_codec(peer_encode, my_decode);
    CallPlan { video: peer_video_accepted && send is Some && receive is Some, send_codec: send, receive_codec: receive }
}

/// The callee's decision after the person answered (`accepted`) and the
/// camera was probed.
pub fn plan_answer(
    accepted: bool,
    want_video: bool,
    camera_available: bool,
    my_encode: &[VideoCodec],
    my_decode: &[VideoCodec],
    peer_encode: &[VideoCodec],
    peer_decode: &[VideoCodec],
) -> (r: CallPlan)
    ensures
        r == spec_answer_plan(accepted, want_video, camera_available, my_encode@, my_decode@, peer_encode@, peer_decode@),
{
    let send = negotiate_send_codec(my_encode, peer_decode);
    let receive = negotiate_send_codec(peer_encode, my_decode);
    let video = accepted && want_video && send.is_some() && receive.is_some() && camera_available;
    CallPlan { video, send_codec: send, receive_codec: receive }
}

/// The caller's decision from the callee's answer.
pub fn plan_after_answer(
    peer_video_accepted: bool,
    my_encode: &[VideoCodec],
    my_decode: &[VideoCodec],
    peer_encode: &[VideoCodec],
    peer_decode: &[VideoCodec],
) -> (r: CallPlan)
    ensures
        r == spec_caller_plan(peer_video_accepted, my_encode@, my_decode@, peer_encode@, peer_decode@),
{
    let send = negotiate_send_codec(my_encode, peer_decode);
    let receive = negotiate_send_codec(peer_encode, my_decode);
    let video = peer_video_accepted && send.is_some() && receive.is_some();
    CallPlan { video, send_codec: send, receive_codec: receive }
}

/// The codec announced with a connected call: the sending codec, or AV1
/// where none was negotiated (video is then off).
pub fn connected_codec(plan: &CallPlan) -> (r: VideoCodec)
    ensures
        r == match plan.send_codec {
            Some(c) => c,
            None => VideoCodec::Av1,
        },
{
    match plan.send_codec {
        Some(c) => c,
        None => VideoCodec::Av1,
    }
}

/// Both ends of a call agree: video runs on the caller exactly when it
/// runs on the callee, and each direction uses the same codec at both
/// ends.
pub proof fn lemma_call_plans_agree(
    accepted: bool,
    want_video: bool,
    camera_available: bool,
    caller_encode: Seq<VideoCodec>,
    caller_decode: Seq<VideoCodec>,
    callee_encode: Seq<VideoCodec>,
    callee_decode: Seq<VideoCodec>,
)
    ensures
        ({
            let callee = spec_answer_plan(
                accepted,
                want_video,
                camera_available,
                callee_encode,
                callee_decode,
                caller_encode,
                caller_decode,
            );
            let caller = spec_caller_plan(callee.video, caller_encode, caller_decode, callee_encode, callee_decode);
            &&& caller.video == callee.video
            &&& caller.send_codec == callee.receive_codec
            &&& caller.receive_codec == callee.send_codec
        }),
{
}

} // verus!
