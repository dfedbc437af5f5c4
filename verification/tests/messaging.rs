use siar::contacts::ContactMsg;
use siar::conv_docs::DmSettings;
use siar::mesh::envelope::{accept_flood_at, Envelope as MeshEnvelope, FloodStep, SeenCache, DEFAULT_TTL, SEEN_TTL_MS};
use siar::mesh::lan::{broadcast_targets, InterfaceV4, Ipv4Config, GLOBAL_BROADCAST};
use siar::mesh::status::{MeshStatus, PEER_WINDOW_MS};
use siar::protocol::frame::{decode_frame, encode_frame, tagged, FrameError, MAX_MESSAGE_BYTES};
use siar::protocol::message::{next_id, Body, Envelope};
use siar::registry::{name_from_key, registry_key, RecordError, UsernameRecord};
use siar::store::{
    bool_setting_text, known_registry_peers, peers_setting_text, remember_registry_peer, theme_mode_setting,
    theme_style_setting, BoolSetting, CallDirection, CallOutcome, ContactState, ThemeMode, ThemeStyle,
    Conversation, MAX_KNOWN_REGISTRY_PEERS,
};
use siar::transfer::{announced_name, mime_guess_simple, pack_for_transfer, sanitize_filename, should_compress, unpack_transfer};
use siar::varint::WireError;
use siar::contacts::{contact_update, ContactUpdate};
use siar::registry::{claim_outcome, ClaimOutcome};

#[test]
fn compressed_extensions_are_skipped() {
    assert!(!should_compress("photo.jpg"));
    assert!(!should_compress("archive.zip"));
    assert!(should_compress("notes.txt"));
    assert!(should_compress("no_extension_log"));
}

#[test]
fn compression_check_ignores_ascii_case_and_directories() {
    assert!(!should_compress("dir/PHOTO.JPG"));
    assert!(!should_compress("a.tar.Gz"));
    assert!(should_compress(".bashrc"));
}

#[test]
fn sanitizes_path_traversal() {
    assert_eq!(sanitize_filename("../../.bashrc"), ".bashrc");
    assert_eq!(sanitize_filename("report.pdf"), "report.pdf");
}

#[test]
fn sanitize_falls_back_for_unusable_names() {
    assert_eq!(sanitize_filename("dir/"), "received_file");
    assert_eq!(sanitize_filename(".."), "received_file");
    assert_eq!(sanitize_filename("a\\b\\."), "received_file");
    assert_eq!(sanitize_filename("C:\\Users\\x\\evil.exe"), "evil.exe");
}

#[test]
fn mime_guesses_from_the_extension() {
    assert_eq!(mime_guess_simple("pic.PNG"), "image/png");
    assert_eq!(mime_guess_simple("a.jpeg"), "image/jpeg");
    assert_eq!(mime_guess_simple("readme.md"), "text/plain");
    assert_eq!(mime_guess_simple("noext"), "application/octet-stream");
    assert_eq!(mime_guess_simple("x.bin"), "application/octet-stream");
}

#[test]
fn stored_names_round_trip() {
    for s in [ContactState::PendingOut, ContactState::PendingIn, ContactState::Accepted, ContactState::Blocked] {
        assert_eq!(ContactState::parse(s.as_str()).unwrap(), s);
    }
    assert!(ContactState::parse("friend").is_err());
    for m in [ThemeMode::System, ThemeMode::Light, ThemeMode::Dark] {
        assert_eq!(ThemeMode::parse(m.as_str()), Some(m));
    }
    assert_eq!(ThemeMode::parse("Dark"), None);
    for s in [ThemeStyle::Regular, ThemeStyle::HackerGreen, ThemeStyle::HackerRed] {
        assert_eq!(ThemeStyle::parse(s.as_str()), Some(s));
    }
    assert_eq!(CallDirection::from_str("outgoing"), CallDirection::Outgoing);
    assert_eq!(CallDirection::from_str("sideways"), CallDirection::Incoming);
    assert_eq!(CallOutcome::from_str("missed"), CallOutcome::Missed);
    assert_eq!(CallOutcome::from_str("??"), CallOutcome::Completed);
}

#[test]
fn registry_keys_ignore_case_and_surrounding_space() {
    assert_eq!(registry_key("  Alice "), b"user/alice".to_vec());
    assert_eq!(registry_key("BOB"), registry_key("bob"));
}

#[test]
fn username_records_round_trip() {
    let rec = UsernameRecord { endpoint_id: [4u8; 32], ticket: "mtkt1abc".to_string(), claimed_at_unix_ms: 1_700_000_000_000 };
    let bytes = rec.encode();
    assert_eq!(&bytes[..32], &[4u8; 32]);
    assert_eq!(bytes[32], 8);
    let back = UsernameRecord::decode(&bytes).unwrap();
    assert_eq!(back.endpoint_id, rec.endpoint_id);
    assert_eq!(back.ticket, rec.ticket);
    assert_eq!(back.claimed_at_unix_ms, rec.claimed_at_unix_ms);
}

#[test]
fn username_record_errors() {
    assert_eq!(UsernameRecord::decode(&[0u8; 10]).unwrap_err(), RecordError::Wire(WireError::UnexpectedEnd));
    let mut bad = vec![0u8; 32];
    bad.extend_from_slice(&[2, 0xff, 0xfe, 0]);
    assert_eq!(UsernameRecord::decode(&bad).unwrap_err(), RecordError::BadUtf8);
    assert_eq!(UsernameRecord::decode(&vec![0u8; MAX_MESSAGE_BYTES + 1]).unwrap_err(), RecordError::TooLarge);
}

#[test]
fn ids_mix_time_and_counter() {
    assert_eq!(next_id(2, 5), 2 * 1_000_003 + 5);
    assert_eq!(next_id(u64::MAX, 1), u64::MAX.wrapping_mul(1_000_003).wrapping_add(1));
}

#[test]
fn envelope_constructors_fill_the_body() {
    let e = Envelope::text_reply(1, 2, "bob".to_string(), "hi".to_string(), 9).with_expiry(Some(3));
    assert_eq!(e.id, 1);
    assert_eq!(e.sent_unix_ms, 2);
    assert_eq!(e.expires_at_unix_ms, Some(3002));
    assert!(matches!(e.body, Body::Text { ref text, reply_to: Some(9) } if text == "hi"));
    let s = Envelope::status(1, 2, "bob".to_string(), "away".to_string(), None, None, None, 99);
    assert_eq!(s.expires_at_unix_ms, Some(99));
    assert!(Envelope::ping(1, 2, "x".to_string()).with_expiry(None).expires_at_unix_ms.is_none());
}

#[test]
fn small_frames_stay_raw_and_large_ones_compress() {
    let small = encode_frame(b"hi".to_vec());
    assert_eq!(small, vec![0, b'h', b'i']);
    assert_eq!(decode_frame(&small).unwrap(), b"hi");
    let long = "the quick brown fox jumps over the lazy dog ".repeat(50).into_bytes();
    let framed = encode_frame(long.clone());
    assert_eq!(framed[0], 1);
    assert!(framed.len() < long.len());
    assert_eq!(decode_frame(&framed).unwrap(), long);
}

#[test]
fn frame_errors() {
    assert_eq!(decode_frame(&[]), Err(FrameError::Empty));
    assert_eq!(decode_frame(&[7, 1, 2]), Err(FrameError::UnknownTag(7)));
    assert_eq!(decode_frame(&[1, 1, 2, 3]), Err(FrameError::Decompress));
    assert_eq!(decode_frame(&tagged(0, vec![0u8; MAX_MESSAGE_BYTES + 1])), Err(FrameError::TooLarge));
    assert_eq!(decode_frame(&tagged(0, vec![5u8; MAX_MESSAGE_BYTES])).unwrap().len(), MAX_MESSAGE_BYTES);
}

#[test]
fn mesh_envelopes_round_trip_and_lose_one_hop() {
    let e = MeshEnvelope::new([1u8; 32], vec![9u8; 200]);
    assert_eq!(e.ttl, DEFAULT_TTL);
    assert_eq!(e.id[6] & 0xf0, 0x40);
    let bytes = e.encode();
    assert_eq!(bytes.len(), 16 + 1 + 32 + 2 + 200);
    let back = MeshEnvelope::decode(&bytes).unwrap();
    assert_eq!(back.id, e.id);
    assert_eq!(back.ttl, e.ttl);
    assert_eq!(back.sender, e.sender);
    assert_eq!(back.payload, e.payload);
    let next = e.decremented().unwrap();
    assert_eq!(next.ttl, DEFAULT_TTL - 1);
    let spent = MeshEnvelope { ttl: 0, ..e.clone() };
    assert!(spent.decremented().is_none());
}

#[test]
fn mesh_decode_errors() {
    assert_eq!(MeshEnvelope::decode(&[0u8; 48]).unwrap_err(), WireError::UnexpectedEnd);
    let mut b = vec![0u8; 49];
    b.extend_from_slice(&[5, 1, 2]);
    assert_eq!(MeshEnvelope::decode(&b).unwrap_err(), WireError::UnexpectedEnd);
    let mut c = vec![0u8; 49];
    c.extend_from_slice(&[0xff; 10]);
    assert_eq!(MeshEnvelope::decode(&c).unwrap_err(), WireError::BadVarint);
}

#[test]
fn seen_cache_reports_first_sighting_only() {
    let mut cache = SeenCache::new();
    assert!(cache.prune_and_insert_at([1u8; 16], 0));
    assert!(!cache.prune_and_insert_at([1u8; 16], 10));
    assert!(cache.prune_and_insert_at([2u8; 16], 20));
    assert!(cache.prune_and_insert_at([1u8; 16], 10 + SEEN_TTL_MS));
    cache.mark([3u8; 16]);
    assert!(!cache.mark_and_check_new([3u8; 16]));
}

#[test]
fn peer_count_decays_with_the_window() {
    let mut status = MeshStatus::new();
    status.note_peer_seen_at(vec![1], 0);
    status.note_peer_seen_at(vec![2], 10);
    status.note_peer_seen_at(vec![1], 20);
    assert_eq!(status.peers_seen_recently, 2);
    status.note_peer_seen_at(vec![3], 15 + PEER_WINDOW_MS);
    assert_eq!(status.peers_seen_recently, 2);
}

#[test]
fn plain_records_have_their_defaults() {
    let d = DmSettings::default();
    assert!(!d.pinned && !d.archived && d.disappearing_ttl_secs.is_none());
    let m = ContactMsg::Reject { from_id: [0u8; 32] };
    assert!(matches!(m, ContactMsg::Reject { .. }));
}

#[test]
fn contact_messages_update_the_senders_row() {
    let req = ContactMsg::Request { from_id: [1u8; 32], from_username: Some("ann".to_string()), from_name: "Ann".to_string(), note: "hi".to_string() };
    match contact_update(req) {
        ContactUpdate::Upsert { username, name, state } => {
            assert_eq!(username.as_deref(), Some("ann"));
            assert_eq!(name, "Ann");
            assert_eq!(state, ContactState::PendingIn);
        }
        ContactUpdate::Remove => panic!("a request files the sender"),
    }
    let acc = ContactMsg::Accept { from_id: [1u8; 32], from_username: None, from_name: "Ann".to_string() };
    assert!(matches!(contact_update(acc), ContactUpdate::Upsert { state: ContactState::Accepted, .. }));
    assert!(matches!(contact_update(ContactMsg::Reject { from_id: [1u8; 32] }), ContactUpdate::Remove));
}

#[test]
fn claims_never_take_someone_elses_name() {
    let mine = [7u8; 32];
    assert!(claim_outcome(None, &mine).is_none());
    let theirs = UsernameRecord { endpoint_id: [8u8; 32], ticket: String::new(), claimed_at_unix_ms: 1 };
    assert!(matches!(claim_outcome(Some(theirs), &mine), Some(ClaimOutcome::TakenBy(r)) if r.endpoint_id == [8u8; 32]));
    let own = UsernameRecord { endpoint_id: mine, ticket: String::new(), claimed_at_unix_ms: 1 };
    assert!(matches!(claim_outcome(Some(own), &mine), Some(ClaimOutcome::Claimed)));
}

#[test]
fn floods_are_delivered_once_and_reflooded_with_one_hop_less() {
    let mut seen = SeenCache::new();
    let env = MeshEnvelope { id: [5u8; 16], ttl: 2, sender: [0u8; 32], payload: vec![1] };
    match accept_flood_at(&mut seen, &env, 0) {
        FloodStep::Deliver { reflood: Some(next) } => assert_eq!(next.ttl, 1),
        _ => panic!("a new envelope with hops left is delivered and re-flooded"),
    }
    assert!(matches!(accept_flood_at(&mut seen, &env, 5), FloodStep::Duplicate));
    let last_hop = MeshEnvelope { id: [6u8; 16], ttl: 0, ..env.clone() };
    assert!(matches!(accept_flood_at(&mut seen, &last_hop, 5), FloodStep::Deliver { reflood: None }));
}

#[test]
fn lan_targets_are_the_global_and_subnet_broadcasts_once_each() {
    let home = Ipv4Config { ip: 0xc0a8_0105, netmask: 0xffff_ff00, broadcast: None };
    let os_given = Ipv4Config { ip: 0x0a00_0002, netmask: 0xff00_0000, broadcast: Some(0x0aff_ffff) };
    let ifaces = [
        InterfaceV4 { is_loopback: true, ipv4: Some(Ipv4Config { ip: 0x7f00_0001, netmask: 0xff00_0000, broadcast: None }) },
        InterfaceV4 { is_loopback: false, ipv4: Some(home) },
        InterfaceV4 { is_loopback: false, ipv4: None },
        InterfaceV4 { is_loopback: false, ipv4: Some(os_given) },
        InterfaceV4 { is_loopback: false, ipv4: Some(home) },
    ];
    assert_eq!(broadcast_targets(&ifaces), vec![GLOBAL_BROADCAST, 0xc0a8_01ff, 0x0aff_ffff]);
    assert_eq!(broadcast_targets(&[]), vec![GLOBAL_BROADCAST]);
}

#[test]
fn registry_keys_name_their_user() {
    assert_eq!(name_from_key(&registry_key("  Zoë ")), Some("zoë".to_string()));
    assert_eq!(name_from_key(b"user/"), Some(String::new()));
    assert_eq!(name_from_key(b"room/x"), None);
    assert_eq!(name_from_key(b"use"), None);
    assert_eq!(name_from_key(&[0x75, 0x73, 0x65, 0x72, 0x2f, 0xff]), None);
}

#[test]
fn files_are_packed_by_type_and_unpack_to_themselves() {
    let text = "log line\n".repeat(100).into_bytes();
    let (packed, compressed) = pack_for_transfer("notes.txt", text.clone()).unwrap();
    assert!(compressed);
    assert!(packed.len() < text.len());
    assert_eq!(unpack_transfer(packed, true).unwrap(), text);
    let (same, compressed) = pack_for_transfer("photo.JPG", vec![1, 2, 3]).unwrap();
    assert!(!compressed);
    assert_eq!(same, vec![1, 2, 3]);
    assert_eq!(unpack_transfer(vec![1, 2, 3], false).unwrap(), vec![1, 2, 3]);
    assert!(unpack_transfer(vec![1, 2, 3], true).is_none());
    assert_eq!(announced_name("/home/me/report.pdf"), "report.pdf");
    assert_eq!(announced_name("/"), "file");
    assert_eq!(announced_name("a/.."), "file");
}

#[test]
fn settings_have_their_defaults_and_read_back() {
    assert_eq!(theme_mode_setting(None), ThemeMode::System);
    assert_eq!(theme_mode_setting(Some("dark")), ThemeMode::Dark);
    assert_eq!(theme_mode_setting(Some("purple")), ThemeMode::System);
    assert_eq!(theme_style_setting(Some("hacker-red")), ThemeStyle::HackerRed);
    assert_eq!(theme_style_setting(None), ThemeStyle::Regular);
    assert!(BoolSetting::Notifications.value_from(None));
    assert!(!BoolSetting::OfflineMesh.value_from(None));
    assert!(!BoolSetting::BackgroundWake.value_from(None));
    assert!(BoolSetting::OfflineMesh.value_from(Some(bool_setting_text(true))));
    assert!(!BoolSetting::Notifications.value_from(Some(bool_setting_text(false))));
    assert!(!BoolSetting::Notifications.value_from(Some("yes")));
    assert_eq!(BoolSetting::TypingIndicator.key(), "typing_indicator_enabled");
}

#[test]
fn remembered_peers_are_most_recent_first_and_capped() {
    let peers = vec!["a".to_string(), "b".to_string(), "c".to_string()];
    assert_eq!(remember_registry_peer(&peers, "b"), vec!["b".to_string(), "a".to_string(), "c".to_string()]);
    let many: Vec<String> = (0..MAX_KNOWN_REGISTRY_PEERS).map(|i| format!("p{i}")).collect();
    let after = remember_registry_peer(&many, "new");
    assert_eq!(after.len(), MAX_KNOWN_REGISTRY_PEERS);
    assert_eq!(after[0], "new");
    assert_eq!(after[MAX_KNOWN_REGISTRY_PEERS - 1], format!("p{}", MAX_KNOWN_REGISTRY_PEERS - 2));
    let text = peers_setting_text(&peers);
    assert_eq!(text, "a,b,c");
    assert_eq!(known_registry_peers(Some(&text)), peers);
    assert_eq!(known_registry_peers(Some(",a,,b,")), vec!["a".to_string(), "b".to_string()]);
    assert!(known_registry_peers(None).is_empty());
    assert!(known_registry_peers(Some("")).is_empty());
}

#[test]
fn conversations_are_filed_by_kind_and_key() {
    assert_eq!(Conversation::Dm("ab12".to_string()).kind_and_key(), ("dm", "ab12"));
    assert_eq!(Conversation::Room("rust".to_string()).kind_and_key(), ("room", "rust"));
}

#[test]
fn ids_of_one_millisecond_differ_by_counter() {
    let now = 1_700_000_000_000u64;
    assert_ne!(next_id(now, 1), next_id(now, 2));
    assert_eq!(next_id(now, u64::MAX).wrapping_add(1), next_id(now, 0));
    assert_eq!(next_id(1, 0), next_id(0, 1_000_003));
}

#[test]
fn the_seen_cache_remembers_exactly_the_ids_seen_within_the_window() {
    let mut cache = SeenCache::new();
    assert!(cache.prune_and_insert_at([1u8; 16], 100));
    assert!(cache.prune_and_insert_at([2u8; 16], 200));
    assert!(!cache.prune_and_insert_at([1u8; 16], 100 + SEEN_TTL_MS - 1));
    assert!(!cache.prune_and_insert_at([1u8; 16], 100 + 2 * SEEN_TTL_MS - 2));
    assert!(cache.prune_and_insert_at([2u8; 16], 200 + SEEN_TTL_MS));
}

#[test]
fn a_later_stamp_never_repeats_an_earlier_id() {
    let mut seen = std::collections::HashSet::new();
    let mut counter = 0u64;
    for now in [1_700_000_000_000u64, 1_700_000_000_000, 1_700_000_000_001, 1_700_000_000_500] {
        for _ in 0..3 {
            assert!(seen.insert(next_id(now, counter)));
            counter += 1;
        }
    }
}

#[test]
fn marking_one_id_leaves_other_ids_answers_alone() {
    let mut with_mark = SeenCache::new();
    let mut without = SeenCache::new();
    assert!(with_mark.prune_and_insert_at([5u8; 16], 0));
    assert!(without.prune_and_insert_at([5u8; 16], 0));
    assert!(with_mark.prune_and_insert_at([6u8; 16], 10));
    for (id, now) in [([5u8; 16], 20u64), ([7u8; 16], 30), ([5u8; 16], SEEN_TTL_MS + 1)] {
        assert_eq!(with_mark.prune_and_insert_at(id, now), without.prune_and_insert_at(id, now));
    }
    assert!(!with_mark.prune_and_insert_at([6u8; 16], 40));
    assert!(without.prune_and_insert_at([6u8; 16], 40));
}
