use siar::protocol::codec::{decode_envelope, encode_envelope, MessageError};
use siar::protocol::frame::FrameError;
use siar::protocol::message::{Body, Envelope, StatusImage};
use siar::calls::codec::VideoCodec;
use siar::calls::plan::plan_answer;
use siar::calls::signal::CallMsg;
use siar::contacts::ContactMsg;
use siar::varint::WireError;

#[test]
fn small_message_stays_uncompressed() {
    let env = Envelope::text(1, 1_700_000_000_000, "bob".to_string(), "hi".to_string());
    let bytes = env.encode().unwrap();
    assert_eq!(bytes[0], 0x00, "tiny payloads shouldn't pay zstd overhead");
    let back = Envelope::decode(&bytes).unwrap();
    assert!(matches!(back.body, Body::Text { text, .. } if text == "hi"));
}

#[test]
fn large_repetitive_message_compresses() {
    let long = "the quick brown fox jumps over the lazy dog ".repeat(50);
    let env = Envelope::text(2, 1_700_000_000_000, "bob".to_string(), long.clone());
    let bytes = env.encode().unwrap();
    assert_eq!(bytes[0], 0x01, "highly compressible text should be tagged zstd");
    let back = Envelope::decode(&bytes).unwrap();
    assert!(matches!(back.body, Body::Text { text, .. } if text == long));
}

#[test]
fn file_announcement_roundtrips() {
    let env = Envelope::file(
        3,
        1_700_000_000_000,
        "bob".to_string(),
        "report.pdf".to_string(),
        "application/pdf".to_string(),
        4096,
        false,
        "deadbeef".to_string(),
        None,
    );
    let bytes = env.encode().unwrap();
    let back = Envelope::decode(&bytes).unwrap();
    match back.body {
        Body::File { name, size_bytes, .. } => {
            assert_eq!(name, "report.pdf");
            assert_eq!(size_bytes, 4096);
        }
        _ => panic!("expected File body"),
    }
}

#[test]
fn envelope_serialization_matches_the_postcard_layout() {
    let env = Envelope::ack(5, 300, "b".to_string(), 7).with_expiry(Some(1));
    let raw = encode_envelope(&env);
    assert_eq!(raw, vec![5, 1, b'b', 0xac, 0x02, 1, 0x94, 0x0a, 3, 7]);
    let reference = postcard::to_allocvec(&(5u64, "b", 300u64, Some(1300u64), 3u32, 7u64)).unwrap();
    assert_eq!(raw, reference);
    let back = decode_envelope(&raw).unwrap();
    assert_eq!(back.id, 5);
    assert_eq!(back.from_name, "b");
    assert_eq!(back.sent_unix_ms, 300);
    assert_eq!(back.expires_at_unix_ms, Some(1300));
    assert!(matches!(back.body, Body::Ack(7)));
}

#[test]
fn every_body_kind_round_trips() {
    let img = Some(StatusImage { blake3_hash: "ab".to_string(), size_bytes: 9 });
    let envs = vec![
        Envelope::hello(1, 2, "x".to_string()),
        Envelope::typing(1, 2, "x".to_string()),
        Envelope::ping(1, 2, "x".to_string()),
        Envelope::reaction(1, 2, "x".to_string(), 8, "👍".to_string(), true),
        Envelope::edit(1, 2, "x".to_string(), 8, "new".to_string()),
        Envelope::delete(1, 2, "x".to_string(), 8),
        Envelope::read_receipt(1, 2, "x".to_string(), 99),
        Envelope::avatar_update(1, 2, "x".to_string(), "cafe".to_string(), 10),
        Envelope::status(1, 2, "x".to_string(), "away".to_string(), img, None, None, 77),
        Envelope::text_reply(1, 2, "x".to_string(), "re".to_string(), 4),
    ];
    for env in envs {
        let back = Envelope::decode(&env.encode().unwrap()).unwrap();
        assert_eq!(format!("{:?}", back), format!("{:?}", env));
    }
}

#[test]
fn malformed_envelopes_are_rejected() {
    assert_eq!(Envelope::decode(&[]).unwrap_err(), MessageError::Frame(FrameError::Empty));
    assert_eq!(Envelope::decode(&[0, 1, 0, 0, 0, 99]).unwrap_err(), MessageError::Wire(WireError::UnknownVariant));
    assert_eq!(Envelope::decode(&[0, 1, 0, 0, 2]).unwrap_err(), MessageError::Wire(WireError::BadOption));
    assert_eq!(Envelope::decode(&[0, 1, 2, 0xff, 0xfe]).unwrap_err(), MessageError::Wire(WireError::BadUtf8));
    assert_eq!(Envelope::decode(&[0, 1, 0, 0, 0, 1, 0, 0, 0, 2]).unwrap_err(), MessageError::Wire(WireError::BadBool));
}

#[test]
fn file_and_status_layouts_match_postcard() {
    let env = Envelope::file(
        9,
        10,
        "ann".to_string(),
        "a.txt".to_string(),
        "text/plain".to_string(),
        70000,
        true,
        "beef".to_string(),
        Some(3),
    );
    let reference = postcard::to_allocvec(&(
        9u64,
        "ann",
        10u64,
        None::<u64>,
        1u32,
        ("a.txt", "text/plain", 70000u64, true, "beef", Some(3u64)),
    ))
    .unwrap();
    assert_eq!(encode_envelope(&env), reference);
    let status = Envelope::status(
        1,
        2,
        "s".to_string(),
        "hey".to_string(),
        Some(StatusImage { blake3_hash: "h".to_string(), size_bytes: 5 }),
        None,
        None,
        40,
    );
    let reference = postcard::to_allocvec(&(
        1u64,
        "s",
        2u64,
        Some(40u64),
        6u32,
        ("hey", Some(("h", 5u64)), None::<(String, u64)>, None::<(String, u64)>),
    ))
    .unwrap();
    assert_eq!(encode_envelope(&status), reference);
}

#[test]
fn other_wire_forms_match_postcard() {
    let mesh = siar::mesh::envelope::Envelope { id: [3u8; 16], ttl: 4, sender: [9u8; 32], payload: vec![1, 2, 3] };
    let reference = postcard::to_allocvec(&([3u8; 16], 4u8, [9u8; 32], vec![1u8, 2, 3])).unwrap();
    assert_eq!(mesh.encode(), reference);

    let rec = siar::registry::UsernameRecord { endpoint_id: [1u8; 32], ticket: "mtkt1x".to_string(), claimed_at_unix_ms: 123456 };
    let reference = postcard::to_allocvec(&([1u8; 32], "mtkt1x", 123456u64)).unwrap();
    assert_eq!(rec.encode(), reference);

    let frame = siar::calls::video_wire::encode_frame_msg(siar::calls::codec::VideoCodec::H265, &[7, 8]);
    assert_eq!(frame, postcard::to_allocvec(&(2u32, vec![7u8, 8])).unwrap());

    let clip = siar::calls::video_wire::encode_clip_packets(siar::calls::codec::VideoCodec::Av1, &vec![vec![1u8], vec![2u8, 3]]);
    assert_eq!(clip, postcard::to_allocvec(&(0u32, vec![vec![1u8], vec![2u8, 3]])).unwrap());
    let legacy = postcard::to_allocvec(&vec![vec![5u8, 6]]).unwrap();
    assert_eq!(
        siar::calls::video_wire::decode_clip_packets(&legacy).unwrap(),
        (siar::calls::codec::VideoCodec::Av1, vec![vec![5u8, 6]])
    );
}

#[test]
fn contact_messages_match_postcard_and_round_trip() {
    let req = ContactMsg::Request {
        from_id: [2u8; 32],
        from_username: Some("ann".to_string()),
        from_name: "Ann".to_string(),
        note: "hello".to_string(),
    };
    let bytes = req.encode();
    assert_eq!(bytes, postcard::to_allocvec(&(0u32, [2u8; 32], Some("ann"), "Ann", "hello")).unwrap());
    assert!(matches!(ContactMsg::decode(&bytes).unwrap(), ContactMsg::Request { note, .. } if note == "hello"));
    let acc = ContactMsg::Accept { from_id: [3u8; 32], from_username: None, from_name: "Bo".to_string() };
    assert_eq!(acc.encode(), postcard::to_allocvec(&(1u32, [3u8; 32], None::<&str>, "Bo")).unwrap());
    let rej = ContactMsg::Reject { from_id: [4u8; 32] };
    assert_eq!(rej.encode(), postcard::to_allocvec(&(2u32, [4u8; 32])).unwrap());
    assert!(matches!(ContactMsg::decode(&rej.encode()).unwrap(), ContactMsg::Reject { from_id } if from_id == [4u8; 32]));
    assert_eq!(ContactMsg::decode(&[3]).unwrap_err(), WireError::UnknownVariant);
    assert_eq!(ContactMsg::decode(&[2, 1, 2]).unwrap_err(), WireError::UnexpectedEnd);
}

#[test]
fn call_signalling_matches_postcard_and_round_trips() {
    let invite = CallMsg::invite([6u8; 32], "Cy".to_string(), true);
    let bytes = invite.encode();
    assert_eq!(bytes, postcard::to_allocvec(&(0u32, [6u8; 32], "Cy", true, vec![0u32], vec![0u32])).unwrap());
    match CallMsg::decode(&bytes).unwrap() {
        CallMsg::Invite { from_name, want_video, decode_codecs, .. } => {
            assert_eq!(from_name, "Cy");
            assert!(want_video);
            assert_eq!(decode_codecs, vec![VideoCodec::Av1]);
        }
        CallMsg::Answer { .. } => panic!("expected an invite"),
    }
    let mine = [VideoCodec::Av1];
    let plan = plan_answer(true, true, false, &mine, &mine, &mine, &mine);
    let answer = CallMsg::answer(true, &plan);
    let bytes = answer.encode();
    assert_eq!(bytes, postcard::to_allocvec(&(1u32, true, false, vec![0u32], vec![0u32])).unwrap());
    assert!(matches!(CallMsg::decode(&bytes).unwrap(), CallMsg::Answer { accepted: true, video_accepted: false, .. }));
    let custom = CallMsg::Answer {
        accepted: false,
        video_accepted: false,
        encode_codecs: vec![VideoCodec::H265, VideoCodec::H264],
        decode_codecs: vec![],
    };
    assert_eq!(custom.encode(), postcard::to_allocvec(&(1u32, false, false, vec![2u32, 1], Vec::<u32>::new())).unwrap());
    assert_eq!(CallMsg::decode(&[1, 0, 0, 1, 9, 0]).unwrap_err(), WireError::UnknownVariant);
    assert_eq!(CallMsg::decode(&[1, 2]).unwrap_err(), WireError::BadBool);
}

#[test]
fn synced_records_match_postcard_and_round_trip() {
    let member = siar::conv_docs::MemberRecord { endpoint_id: [1u8; 32], display_name: "Dee".to_string(), joined_at_ms: 500 };
    let bytes = member.encode();
    assert_eq!(bytes, postcard::to_allocvec(&([1u8; 32], "Dee", 500u64)).unwrap());
    assert_eq!(siar::conv_docs::MemberRecord::decode(&bytes).unwrap(), member);

    let meta = siar::conv_docs::RoomMeta { name: "rust".to_string(), title: "Rust".to_string(), admin: [2u8; 32], created_at_ms: 9 };
    let bytes = meta.encode();
    assert_eq!(bytes, postcard::to_allocvec(&("rust", "Rust", [2u8; 32], 9u64)).unwrap());
    assert_eq!(siar::conv_docs::RoomMeta::decode(&bytes).unwrap(), meta);

    let removal = siar::conv_docs::RemovalRecord { removed_at_ms: 77, removed_by: [3u8; 32] };
    let bytes = removal.encode();
    assert_eq!(bytes, postcard::to_allocvec(&(77u64, [3u8; 32])).unwrap());
    let back = siar::conv_docs::RemovalRecord::decode(&bytes).unwrap();
    assert_eq!((back.removed_at_ms, back.removed_by), (77, [3u8; 32]));

    let settings = siar::conv_docs::DmSettings {
        conversation_title: Some("Team".to_string()),
        pinned: true,
        archived: false,
        disappearing_ttl_secs: Some(3600),
        updated_at_ms: 42,
    };
    let bytes = settings.encode();
    assert_eq!(bytes, postcard::to_allocvec(&(Some("Team"), true, false, Some(3600u64), 42u64)).unwrap());
    assert_eq!(siar::conv_docs::DmSettings::decode(&bytes).unwrap(), settings);
    assert_eq!(siar::conv_docs::DmSettings::decode(&[2]).unwrap_err(), WireError::BadOption);
}

#[test]
fn member_and_removal_keys_use_lowercase_hex() {
    let id = [0xabu8; 32];
    let key = siar::conv_docs::removed_key(&id);
    let expected = format!("removed/{}", data_encoding::HEXLOWER.encode(&id)).into_bytes();
    assert_eq!(key, expected);
    assert_eq!(siar::conv_docs::removed_id_from_key(&key), Some(id));
    assert_eq!(siar::conv_docs::member_key(&id), format!("member/{}", "ab".repeat(32)).into_bytes());
    assert_eq!(siar::conv_docs::removed_id_from_key(b"removed/abcd"), None);
    assert_eq!(siar::conv_docs::removed_id_from_key(&format!("removed/{}", "AB".repeat(32)).into_bytes()), None);
    assert_eq!(siar::conv_docs::removed_id_from_key(&format!("member/{}", "ab".repeat(32)).into_bytes()), None);
}

#[test]
fn removed_members_are_left_out_of_the_member_list_in_order() {
    let member = |b: u8, name: &str| siar::conv_docs::MemberRecord {
        endpoint_id: [b; 32],
        display_name: name.to_string(),
        joined_at_ms: b as u64,
    };
    let members = vec![member(1, "a"), member(2, "b"), member(3, "c"), member(4, "d")];
    let removed = [[2u8; 32], [9u8; 32], [4u8; 32]];
    let visible = siar::conv_docs::visible_members(members.clone(), &removed);
    assert_eq!(visible, vec![member(1, "a"), member(3, "c")]);
    assert_eq!(siar::conv_docs::visible_members(members.clone(), &[]), members);
}
