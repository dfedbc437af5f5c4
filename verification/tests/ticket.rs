use siar::ticket::{
    decode_ticket_text, encode_ticket_text, namespace_secret_for_dm, namespace_secret_for_room, topic_for_room,
    TicketError, ROOM_TICKET_PREFIX, TICKET_PREFIX,
};

#[test]
fn room_topic_is_case_and_whitespace_insensitive() {
    assert_eq!(topic_for_room("Rust Lang"), topic_for_room("  rust lang  "));
}

#[test]
fn room_topic_is_the_hash_of_the_normalised_name() {
    assert_eq!(topic_for_room(" Chat "), *blake3::hash(b"chat").as_bytes());
    assert_eq!(
        namespace_secret_for_room("Chat"),
        *blake3::hash(b"iroh-messenger/room-meta/v1/chat").as_bytes()
    );
    assert_ne!(namespace_secret_for_room("chat"), topic_for_room("chat"));
}

#[test]
fn dm_namespace_is_the_same_from_both_ends() {
    let a = [1u8; 32];
    let b = [2u8; 32];
    assert_eq!(namespace_secret_for_dm(a, b), namespace_secret_for_dm(b, a));
    let mut input = b"iroh-messenger/dm-meta/v1/".to_vec();
    input.extend_from_slice(&a);
    input.extend_from_slice(&b);
    assert_eq!(namespace_secret_for_dm(b, a), *blake3::hash(&input).as_bytes());
}

#[test]
fn ticket_text_is_a_prefix_and_lowercase_base32() {
    let text = encode_ticket_text(TICKET_PREFIX, b"hi");
    assert_eq!(text, "mtkt1nbuq");
    assert_eq!(decode_ticket_text(TICKET_PREFIX, "  mtkt1NBUQ \n").unwrap(), b"hi");
    assert_eq!(decode_ticket_text(TICKET_PREFIX, &text).unwrap(), b"hi");
    let payload: Vec<u8> = (0u8..=40).collect();
    let room = encode_ticket_text(ROOM_TICKET_PREFIX, &payload);
    assert!(room.starts_with("mrtk1"));
    assert_eq!(decode_ticket_text(ROOM_TICKET_PREFIX, &room).unwrap(), payload);
}

#[test]
fn ticket_text_errors() {
    assert_eq!(decode_ticket_text(TICKET_PREFIX, "mrtk1nbuq"), Err(TicketError::NotATicket));
    assert_eq!(decode_ticket_text(TICKET_PREFIX, "mtk"), Err(TicketError::NotATicket));
    assert_eq!(decode_ticket_text(TICKET_PREFIX, "mtkt1n!uq"), Err(TicketError::Malformed));
}
