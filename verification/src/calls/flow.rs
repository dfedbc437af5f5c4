//! The decisions of call signalling, one event at a time. The callee waits
//! for an invite, rings, and answers; the caller waits for that answer or
//! for the local user to cancel. Either side then runs the call until the
//! media session ends. The plumbing around (streams, timeouts, the
//! person's answer) feeds events in and carries the actions out.
use vstd::prelude::*;
use vstd::string::StringExecFns;
use crate::calls::codec::VideoCodec;
use crate::calls::plan::{CallPlan, plan_after_answer, plan_answer, spec_answer_plan, spec_caller_plan};
use crate::calls::signal::{CallMsg, CallMsgView, call_msg_view, spec_decode_call_msg, spec_encode_call_msg};

verus! {

/// Where the callee's signalling is.
#[derive(Debug)]
pub enum CalleePhase {
    /// Waiting for the first message on the call stream.
    AwaitingInvite,
    /// The invite is shown; waiting for the person's answer.
    Ringing { want_video: bool, peer_encode: Vec<VideoCodec>, peer_decode: Vec<VideoCodec> },
    /// The call runs.
    InCall,
    /// Signalling is over.
    Over,
}

/// What happened on the callee's side.
#[derive(Debug)]
pub enum CalleeEvent {
    /// The first message arrived (`None`: the stream failed or timed out).
    FirstMessage(Option<Vec<u8>>),
    /// The person answered (`false` also where no answer came in time),
    /// with whether this device has a camera and the codecs it can encode
    /// and decode.
    Decided { accepted: bool, camera_available: bool, my_encode: Vec<VideoCodec>, my_decode: Vec<VideoCodec> },
    /// The caller's connection closed while ringing.
    CallerClosed,
    /// The media session finished; `Some` carries its error.
    SessionEnded(Option<String>),
}

/// Where the caller's signalling is.
#[derive(Debug)]
pub enum CallerPhase {
    /// The invite is out, listing the codecs this device can encode and
    /// decode; waiting for the answer.
    Dialing { my_encode: Vec<VideoCodec>, my_decode: Vec<VideoCodec> },
    /// The call runs.
    InCall,
    /// Signalling is over.
    Over,
}

/// What happened on the caller's side.
#[derive(Debug)]
pub enum CallerEvent {
    /// The local user cancelled before an answer came.
    Cancelled,
    /// The reply arrived.
    Reply(Vec<u8>),
    /// No answer came within the signalling timeout.
    NoAnswer,
    /// The connection or the signalling stream failed, for this reason.
    ConnectFailed(String),
    /// The media session finished; `Some` carries its error.
    SessionEnded(Option<String>),
}

/// What one end does next.
#[derive(Debug)]
pub enum CallAction {
    /// Nothing.
    Nothing,
    /// Ring: show who calls and whether they want video.
    ShowIncoming { from_name: String, wants_video: bool },
    /// Send this answer; where the call was accepted, it then connects
    /// with the plan.
    SendAnswer { answer: Vec<u8>, connect: Option<CallPlan> },
    /// The call connects with this plan.
    Connect { plan: CallPlan },
    /// The call is over, for this reason.
    Ended { reason: String },
    /// The peer broke the protocol.
    Fail { reason: String },
}

/// Why a call ended that no one answered in time.
pub open spec fn no_answer_reason() -> Seq<char> {
    "no answer: they may be unreachable or just didn't pick up in time"@
}

/// Why a call that ran has ended.
pub open spec fn ended_reason(error: Option<Seq<char>>) -> Seq<char> {
    match error {
        None => "call ended"@,
        Some(e) => "call ended: "@ + e,
    }
}

/// The answer the callee sends for a decision under a plan, listing its
/// own codecs.
pub open spec fn spec_answer_bytes(accepted: bool, plan: CallPlan, my_encode: Seq<VideoCodec>, my_decode: Seq<VideoCodec>) -> Seq<u8> {
    spec_encode_call_msg(
        CallMsgView::Answer { accepted, video_accepted: plan.video, encode_codecs: my_encode, decode_codecs: my_decode },
    )
}

fn ended(error: Option<String>) -> (r: String)
    ensures
        r@ == ended_reason(match error {
            Some(e) => Some(e@),
            None => None,
        }),
{
    match error {
        None => String::from_str("call ended"),
        Some(e) => String::from_str("call ended: ").concat(e.as_str()),
    }
}

/// The callee's next phase and action. An invite rings; anything else as
/// a first message ends signalling silently. The answer carries the
/// callee's plan, and an accepted call connects with it. A caller that
/// leaves while ringing ends the call as cancelled. Events that do not
/// fit the phase change nothing.
pub fn callee_step(phase: CalleePhase, event: CalleeEvent) -> (r: (CalleePhase, CallAction))
    ensures
        match (phase, event) {
            (CalleePhase::AwaitingInvite, CalleeEvent::FirstMessage(None)) => r.0 is Over && r.1 is Nothing,
            (CalleePhase::AwaitingInvite, CalleeEvent::FirstMessage(Some(b))) => match spec_decode_call_msg(b@) {
                Ok(CallMsgView::Invite { from_name, want_video, encode_codecs, decode_codecs, .. }) => {
                    &&& r.0 matches CalleePhase::Ringing { want_video: w, peer_encode, peer_decode } && w == want_video
                        && peer_encode@ == encode_codecs && peer_decode@ == decode_codecs
                    &&& r.1 matches CallAction::ShowIncoming { from_name: n, wants_video } && n@ == from_name
                        && wants_video == want_video
                },
                _ => r.0 is Over && r.1 is Nothing,
            },
            (
                CalleePhase::Ringing { want_video, peer_encode, peer_decode },
                CalleeEvent::Decided { accepted, camera_available, my_encode, my_decode },
            ) => {
                let plan = spec_answer_plan(
                    accepted,
                    want_video,
                    camera_available,
                    my_encode@,
                    my_decode@,
                    peer_encode@,
                    peer_decode@,
                );
                &&& (if accepted {
                    r.0 is InCall
                } else {
                    r.0 is Over
                })
                &&& r.1 matches CallAction::SendAnswer { answer, connect } && answer@ == spec_answer_bytes(
                    accepted,
                    plan,
                    my_encode@,
                    my_decode@,
                )
                    && connect == (if accepted {
                    Some(plan)
                } else {
                    None
                })
            },
            (CalleePhase::Ringing { .. }, CalleeEvent::CallerClosed) => r.0 is Over && (r.1 matches CallAction::Ended {
                reason,
            } && reason@ == "cancelled"@),
            (CalleePhase::InCall, CalleeEvent::SessionEnded(e)) => r.0 is Over && (r.1 matches CallAction::Ended {
                reason,
            } && reason@ == ended_reason(
                match e {
                    Some(x) => Some(x@),
                    None => None,
                },
            )),
            (p, _) => r.0 == p && r.1 is Nothing,
        },
{
    match (phase, event) {
        (CalleePhase::AwaitingInvite, CalleeEvent::FirstMessage(None)) => (CalleePhase::Over, CallAction::Nothing),
        (CalleePhase::AwaitingInvite, CalleeEvent::FirstMessage(Some(b))) => match CallMsg::decode(b.as_slice()) {
            Ok(CallMsg::Invite { from_name, want_video, encode_codecs, decode_codecs, .. }) => (
                CalleePhase::Ringing { want_video, peer_encode: encode_codecs, peer_decode: decode_codecs },
                CallAction::ShowIncoming { from_name, wants_video: want_video },
            ),
            _ => (CalleePhase::Over, CallAction::Nothing),
        },
        (
            CalleePhase::Ringing { want_video, peer_encode, peer_decode },
            CalleeEvent::Decided { accepted, camera_available, my_encode, my_decode },
        ) => {
            let plan = plan_answer(
                accepted,
                want_video,
                camera_available,
                my_encode.as_slice(),
                my_decode.as_slice(),
                peer_encode.as_slice(),
                peer_decode.as_slice(),
            );
            let answer = CallMsg::Answer {
                accepted,
                video_accepted: plan.video,
                encode_codecs: my_encode,
                decode_codecs: my_decode,
            }.encode();
            if accepted {
                (CalleePhase::InCall, CallAction::SendAnswer { answer, connect: Some(plan) })
            } else {
                (CalleePhase::Over, CallAction::SendAnswer { answer, connect: None })
            }
        },
        (CalleePhase::Ringing { .. }, CalleeEvent::CallerClosed) => (
            CalleePhase::Over,
            CallAction::Ended { reason: String::from_str("cancelled") },
        ),
        (CalleePhase::InCall, CalleeEvent::SessionEnded(e)) => (CalleePhase::Over, CallAction::Ended { reason: ended(e) }),
        (p, _) => (p, CallAction::Nothing),
    }
}

/// The caller's next phase and action. Cancelling before the answer ends
/// the call as cancelled; no answer in time, or a failed connection, ends
/// it with that reason; a reply that is not an answer is a protocol
/// failure; a declined answer ends the call as declined; an accepted one
/// connects with the caller's plan. Events that do not fit the phase
/// change nothing.
pub fn caller_step(phase: CallerPhase, event: CallerEvent) -> (r: (CallerPhase, CallAction))
    ensures
        match (phase, event) {
            (CallerPhase::Dialing { .. }, CallerEvent::Cancelled) => r.0 is Over && (r.1 matches CallAction::Ended {
                reason,
            } && reason@ == "cancelled"@),
            (CallerPhase::Dialing { .. }, CallerEvent::NoAnswer) => r.0 is Over && (r.1 matches CallAction::Ended {
                reason,
            } && reason@ == no_answer_reason()),
            (CallerPhase::Dialing { .. }, CallerEvent::ConnectFailed(e)) => r.0 is Over && (r.1 matches CallAction::Ended {
                reason,
            } && reason@ == "call failed: "@ + e@),
            (CallerPhase::Dialing { my_encode, my_decode }, CallerEvent::Reply(b)) => match spec_decode_call_msg(b@) {
                Ok(CallMsgView::Answer { accepted, video_accepted, encode_codecs, decode_codecs }) => if accepted {
                    r.0 is InCall && r.1 == (CallAction::Connect {
                        plan: spec_caller_plan(video_accepted, my_encode@, my_decode@, encode_codecs, decode_codecs),
                    })
                } else {
                    r.0 is Over && (r.1 matches CallAction::Ended { reason } && reason@ == "declined"@)
                },
                _ => r.0 is Over && (r.1 matches CallAction::Fail { reason } && reason@ == "unexpected reply from peer"@),
            },
            (CallerPhase::InCall, CallerEvent::SessionEnded(e)) => r.0 is Over && (r.1 matches CallAction::Ended {
                reason,
            } && reason@ == ended_reason(
                match e {
                    Some(x) => Some(x@),
                    None => None,
                },
            )),
            (p, _) => r.0 == p && r.1 is Nothing,
        },
{
    match (phase, event) {
        (CallerPhase::Dialing { .. }, CallerEvent::Cancelled) => (
            CallerPhase::Over,
            CallAction::Ended { reason: String::from_str("cancelled") },
        ),
        (CallerPhase::Dialing { .. }, CallerEvent::NoAnswer) => (
            CallerPhase::Over,
            CallAction::Ended { reason: String::from_str("no answer: they may be unreachable or just didn't pick up in time") },
        ),
        (CallerPhase::Dialing { .. }, CallerEvent::ConnectFailed(e)) => (
            CallerPhase::Over,
            CallAction::Ended { reason: String::from_str("call failed: ").concat(e.as_str()) },
        ),
        (CallerPhase::Dialing { my_encode, my_decode }, CallerEvent::Reply(b)) => match CallMsg::decode(b.as_slice()) {
            Ok(CallMsg::Answer { accepted, video_accepted, encode_codecs, decode_codecs }) => {
                if accepted {
                    let plan = plan_after_answer(
                        video_accepted,
                        my_encode.as_slice(),
                        my_decode.as_slice(),
                        encode_codecs.as_slice(),
                        decode_codecs.as_slice(),
                    );
                    (CallerPhase::InCall, CallAction::Connect { plan })
                } else {
                    (CallerPhase::Over, CallAction::Ended { reason: String::from_str("declined") })
                }
            },
            _ => (CallerPhase::Over, CallAction::Fail { reason: String::from_str("unexpected reply from peer") }),
        },
        (CallerPhase::InCall, CallerEvent::SessionEnded(e)) => (CallerPhase::Over, CallAction::Ended { reason: ended(e) }),
        (p, _) => (p, CallAction::Nothing),
    }
}

} // verus!
