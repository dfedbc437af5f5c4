use siar::calls::codec::{available_hw_decode_codecs, available_hw_encode_codecs, VideoCodec};
use siar::calls::flow::{callee_step, caller_step, CallAction, CalleeEvent, CalleePhase, CallerEvent, CallerPhase};
use siar::calls::plan::CallPlan;
use siar::calls::signal::CallMsg;

fn decided(accepted: bool, camera_available: bool) -> CalleeEvent {
    CalleeEvent::Decided {
        accepted,
        camera_available,
        my_encode: available_hw_encode_codecs(),
        my_decode: available_hw_decode_codecs(),
    }
}

fn dialing() -> CallerPhase {
    CallerPhase::Dialing { my_encode: available_hw_encode_codecs(), my_decode: available_hw_decode_codecs() }
}

fn invite_bytes(want_video: bool) -> Vec<u8> {
    CallMsg::invite([6u8; 32], "Cy".to_string(), want_video).encode()
}

#[test]
fn an_invite_rings_and_an_accepted_answer_connects_both_sides() {
    let (phase, action) = callee_step(CalleePhase::AwaitingInvite, CalleeEvent::FirstMessage(Some(invite_bytes(true))));
    match action {
        CallAction::ShowIncoming { from_name, wants_video } => {
            assert_eq!(from_name, "Cy");
            assert!(wants_video);
        }
        other => panic!("expected a ring, got {other:?}"),
    }
    assert!(matches!(phase, CalleePhase::Ringing { want_video: true, .. }));

    let (phase, action) = callee_step(phase, decided(true, true));
    assert!(matches!(phase, CalleePhase::InCall));
    let plan = CallPlan { video: true, send_codec: Some(VideoCodec::Av1), receive_codec: Some(VideoCodec::Av1) };
    let answer = match action {
        CallAction::SendAnswer { answer, connect } => {
            assert_eq!(connect, Some(plan));
            answer
        }
        other => panic!("expected an answer, got {other:?}"),
    };

    let (caller, action) = caller_step(dialing(), CallerEvent::Reply(answer));
    assert!(matches!(caller, CallerPhase::InCall));
    match action {
        CallAction::Connect { plan: p } => assert_eq!(p, plan),
        other => panic!("expected to connect, got {other:?}"),
    }

    let (caller, action) = caller_step(caller, CallerEvent::SessionEnded(Some("reset".to_string())));
    assert!(matches!(caller, CallerPhase::Over));
    assert!(matches!(action, CallAction::Ended { reason } if reason == "call ended: reset"));
    let (_, action) = callee_step(phase, CalleeEvent::SessionEnded(None));
    assert!(matches!(action, CallAction::Ended { reason } if reason == "call ended"));
}

#[test]
fn a_declined_call_ends_as_declined_for_the_caller() {
    let (phase, _) = callee_step(CalleePhase::AwaitingInvite, CalleeEvent::FirstMessage(Some(invite_bytes(false))));
    let (phase, action) = callee_step(phase, decided(false, true));
    assert!(matches!(phase, CalleePhase::Over));
    let answer = match action {
        CallAction::SendAnswer { answer, connect: None } => answer,
        other => panic!("expected a refusal, got {other:?}"),
    };
    let (caller, action) = caller_step(dialing(), CallerEvent::Reply(answer));
    assert!(matches!(caller, CallerPhase::Over));
    assert!(matches!(action, CallAction::Ended { reason } if reason == "declined"));
}

#[test]
fn no_camera_means_an_audio_only_call() {
    let (phase, _) = callee_step(CalleePhase::AwaitingInvite, CalleeEvent::FirstMessage(Some(invite_bytes(true))));
    let (_, action) = callee_step(phase, decided(true, false));
    match action {
        CallAction::SendAnswer { connect: Some(plan), .. } => assert!(!plan.video),
        other => panic!("expected an answer, got {other:?}"),
    }
}

#[test]
fn cancelling_ends_the_ring_as_cancelled_on_both_sides() {
    let (phase, _) = callee_step(CalleePhase::AwaitingInvite, CalleeEvent::FirstMessage(Some(invite_bytes(false))));
    let (phase, action) = callee_step(phase, CalleeEvent::CallerClosed);
    assert!(matches!(phase, CalleePhase::Over));
    assert!(matches!(action, CallAction::Ended { reason } if reason == "cancelled"));
    let (caller, action) = caller_step(dialing(), CallerEvent::Cancelled);
    assert!(matches!(caller, CallerPhase::Over));
    assert!(matches!(action, CallAction::Ended { reason } if reason == "cancelled"));
}

#[test]
fn a_first_message_that_is_not_an_invite_ends_silently() {
    let answer = CallMsg::Answer {
        accepted: true,
        video_accepted: false,
        encode_codecs: vec![VideoCodec::Av1],
        decode_codecs: vec![VideoCodec::Av1],
    }
    .encode();
    let (phase, action) = callee_step(CalleePhase::AwaitingInvite, CalleeEvent::FirstMessage(Some(answer)));
    assert!(matches!(phase, CalleePhase::Over));
    assert!(matches!(action, CallAction::Nothing));
    let (phase, action) = callee_step(CalleePhase::AwaitingInvite, CalleeEvent::FirstMessage(None));
    assert!(matches!(phase, CalleePhase::Over));
    assert!(matches!(action, CallAction::Nothing));
}

#[test]
fn an_invite_as_reply_is_a_protocol_failure_for_the_caller() {
    let (caller, action) = caller_step(dialing(), CallerEvent::Reply(invite_bytes(true)));
    assert!(matches!(caller, CallerPhase::Over));
    assert!(matches!(action, CallAction::Fail { reason } if reason == "unexpected reply from peer"));
    let (caller, action) = caller_step(CallerPhase::InCall, CallerEvent::Cancelled);
    assert!(matches!(caller, CallerPhase::InCall));
    assert!(matches!(action, CallAction::Nothing));
}

#[test]
fn a_call_nobody_answers_in_time_ends_with_a_notice() {
    let (caller, action) = caller_step(dialing(), CallerEvent::NoAnswer);
    assert!(matches!(caller, CallerPhase::Over));
    assert!(matches!(action, CallAction::Ended { reason } if reason == "no answer: they may be unreachable or just didn't pick up in time"));
}

#[test]
fn a_failed_connection_ends_the_call_with_its_reason() {
    let (caller, action) = caller_step(dialing(), CallerEvent::ConnectFailed("timed out".to_string()));
    assert!(matches!(caller, CallerPhase::Over));
    assert!(matches!(action, CallAction::Ended { reason } if reason == "call failed: timed out"));
}

#[test]
fn the_callees_probed_codecs_decide_its_plan() {
    let invite = CallMsg::Invite {
        from_id: [1u8; 32],
        from_name: "Ann".to_string(),
        want_video: true,
        encode_codecs: vec![VideoCodec::H264, VideoCodec::Av1],
        decode_codecs: vec![VideoCodec::H265, VideoCodec::Av1],
    }
    .encode();
    let (phase, _) = callee_step(CalleePhase::AwaitingInvite, CalleeEvent::FirstMessage(Some(invite)));
    let event = CalleeEvent::Decided {
        accepted: true,
        camera_available: true,
        my_encode: vec![VideoCodec::H265, VideoCodec::Av1],
        my_decode: vec![VideoCodec::H264],
    };
    let (_, action) = callee_step(phase, event);
    let answer = match action {
        CallAction::SendAnswer { answer, connect: Some(plan) } => {
            assert_eq!(plan, CallPlan { video: true, send_codec: Some(VideoCodec::H265), receive_codec: Some(VideoCodec::H264) });
            answer
        }
        other => panic!("expected an answer, got {other:?}"),
    };
    let caller = CallerPhase::Dialing {
        my_encode: vec![VideoCodec::H264, VideoCodec::Av1],
        my_decode: vec![VideoCodec::H265, VideoCodec::Av1],
    };
    match caller_step(caller, CallerEvent::Reply(answer)).1 {
        CallAction::Connect { plan } => {
            assert_eq!(plan, CallPlan { video: true, send_codec: Some(VideoCodec::H264), receive_codec: Some(VideoCodec::H265) });
        }
        other => panic!("expected to connect, got {other:?}"),
    }
}
