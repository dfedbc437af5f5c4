//! Envelopes: the message every direct session and room sends, with a
//! correlation id, the sender's display name, a send time, an optional
//! expiry, and the body.
use vstd::prelude::*;
use crate::clock::system_unix_ms;

verus! {

/// One message on the wire.
#[derive(Debug, Clone)]
pub struct Envelope {
    /// Correlates an `Ack` with the envelope it confirms.
    pub id: u64,
    /// The sender's display name when sending (for display only).
    pub from_name: String,
    pub sent_unix_ms: u64,
    /// Absolute expiry of a disappearing message, computed by the sender;
    /// `None` never expires.
    pub expires_at_unix_ms: Option<u64>,
    pub body: Body,
}

/// What an envelope carries.
#[derive(Debug, Clone)]
pub enum Body {
    /// A text message, optionally quoting an earlier envelope by id.
    Text { text: String, reply_to: Option<u64> },
    /// An announcement of a file available for download (not its bytes).
    File {
        name: String,
        mime: String,
        size_bytes: u64,
        compressed: bool,
        blake3_hash: String,
        reply_to: Option<u64>,
    },
    /// Sent once when a direct session opens.
    Hello,
    /// Confirms receipt of the envelope with this id.
    Ack(u64),
    /// A transient typing hint.
    Typing,
    /// A keepalive.
    Ping,
    /// A status update; its envelope always carries an expiry.
    Status {
        text: String,
        image: Option<StatusImage>,
        video: Option<StatusVideo>,
        audio: Option<StatusAudio>,
    },
    /// Announces a new display picture.
    AvatarUpdate { blake3_hash: String, size_bytes: u64 },
    /// Adds (or, with `remove`, takes back) an emoji reaction.
    Reaction { target_id: u64, emoji: String, remove: bool },
    /// Replaces an earlier message's text.
    Edit { target_id: u64, new_text: String },
    /// Deletes an earlier message for everyone going forward.
    Delete { target_id: u64 },
    /// Everything sent up to this time has been seen.
    Read { up_to_sent_unix_ms: u64 },
}

/// A status image, announced by hash and size.
#[derive(Debug, Clone)]
pub struct StatusImage {
    pub blake3_hash: String,
    pub size_bytes: u64,
}

/// A status video clip, announced by hash and size.
#[derive(Debug, Clone)]
pub struct StatusVideo {
    pub blake3_hash: String,
    pub size_bytes: u64,
}

/// A status voice clip, announced by hash and size.
#[derive(Debug, Clone)]
pub struct StatusAudio {
    pub blake3_hash: String,
    pub size_bytes: u64,
}

/// The id scheme: the send time mixed with a per-process counter, in
/// wrapping arithmetic.
pub open spec fn spec_next_id(now_unix_ms: u64, counter: u64) -> u64 {
    ((now_unix_ms as int * 1_000_003 + counter as int) % 0x1_0000_0000_0000_0000) as u64
}

/// At one clock reading, distinct counter values give distinct ids: a
/// process that never reuses a counter value never stamps two envelopes of
/// the same millisecond alike.
pub proof fn lemma_next_id_distinct_counters(now_unix_ms: u64, c1: u64, c2: u64)
    requires
        c1 != c2,
    ensures
        spec_next_id(now_unix_ms, c1) != spec_next_id(now_unix_ms, c2),
{
    let p: int = 0x1_0000_0000_0000_0000;
    let m: int = now_unix_ms as int * 1_000_003;
    vstd::arithmetic::div_mod::lemma_add_mod_noop(m, c1 as int, p);
    vstd::arithmetic::div_mod::lemma_add_mod_noop(m, c2 as int, p);
    vstd::arithmetic::div_mod::lemma_small_mod(c1 as nat, p as nat);
    vstd::arithmetic::div_mod::lemma_small_mod(c2 as nat, p as nat);
    let r = m % p;
    assert(0 <= r < p) by {
        vstd::arithmetic::div_mod::lemma_mod_bound(m, p);
    }
    if (r + c1) % p == (r + c2) % p {
        vstd::arithmetic::div_mod::lemma_mod_equivalence(r + c1, r + c2, p);
        assert((c1 - c2) % p == 0) by {
            assert(r + c1 - (r + c2) == c1 - c2);
        }
        assert(-p < c1 - c2 < p);
        vstd::arithmetic::div_mod::lemma_fundamental_div_mod(c1 - c2, p);
        assert(false) by (nonlinear_arith)
            requires
                c1 - c2 == p * ((c1 - c2) / p) + (c1 - c2) % p,
                (c1 - c2) % p == 0,
                -p < c1 - c2 < p,
                c1 - c2 != 0,
                p > 0,
        ;
    }
}

/// Across milliseconds: an id stamped later (a clock reading not before
/// the earlier one, and a larger counter value, as a process counter taken
/// after the reading gives) differs from every earlier one, as long as the
/// mix of time and counter stays below 2^64 (true for wall-clock readings
/// until centuries from now).
pub proof fn lemma_next_id_unique_over_time(t1: u64, c1: u64, t2: u64, c2: u64)
    requires
        t1 <= t2,
        c1 < c2,
        t2 as int * 1_000_003 + c2 < 0x1_0000_0000_0000_0000,
    ensures
        spec_next_id(t1, c1) != spec_next_id(t2, c2),
{
    let p: int = 0x1_0000_0000_0000_0000;
    assert(t1 as int * 1_000_003 <= t2 as int * 1_000_003) by (nonlinear_arith)
        requires
            t1 <= t2,
    ;
    vstd::arithmetic::div_mod::lemma_small_mod((t1 as int * 1_000_003 + c1) as nat, p as nat);
    vstd::arithmetic::div_mod::lemma_small_mod((t2 as int * 1_000_003 + c2) as nat, p as nat);
}

/// A locally unique id from the current time and the next counter value.
pub fn next_id(now_unix_ms: u64, counter: u64) -> (r: u64)
    ensures
        r == spec_next_id(now_unix_ms, counter),
{
    let m: u64 = now_unix_ms.wrapping_mul(1_000_003);
    let r: u64 = m.wrapping_add(counter);
    proof {
        let p: int = 0x1_0000_0000_0000_0000;
        assert(m == (now_unix_ms as int * 1_000_003) % p);
        assert(r == (m + counter as int) % p);
        vstd::arithmetic::div_mod::lemma_add_mod_noop(now_unix_ms as int * 1_000_003, counter as int, p);
        vstd::arithmetic::div_mod::lemma_mod_twice(counter as int, p);
        vstd::arithmetic::div_mod::lemma_small_mod(counter as nat, p as nat);
    }
    r
}

/// The wall clock in milliseconds since the Unix epoch (zero for a clock
/// set before it).
pub fn now_unix_ms() -> (r: u64) {
    system_unix_ms()
}

/// An envelope with no expiry.
pub open spec fn plain(id: u64, sent_unix_ms: u64, from_name: String, body: Body) -> Envelope {
    Envelope { id, from_name, sent_unix_ms, expires_at_unix_ms: None, body }
}

impl Envelope {
    /// A text message.
    pub fn text(id: u64, sent_unix_ms: u64, from_name: String, text: String) -> (r: Self)
        ensures
            r == plain(id, sent_unix_ms, from_name, Body::Text { text, reply_to: None }),
    {
        Envelope { id, from_name, sent_unix_ms, expires_at_unix_ms: None, body: Body::Text { text, reply_to: None } }
    }

    /// A text message quoting the envelope `reply_to`.
    pub fn text_reply(id: u64, sent_unix_ms: u64, from_name: String, text: String, reply_to: u64) -> (r: Self)
        ensures
            r == plain(id, sent_unix_ms, from_name, Body::Text { text, reply_to: Some(reply_to) }),
    {
        Envelope { id, from_name, sent_unix_ms, expires_at_unix_ms: None, body: Body::Text { text, reply_to: Some(reply_to) } }
    }

    /// A file announcement.
    pub fn file(id: u64, sent_unix_ms: u64, from_name: String, name: String, mime: String, size_bytes: u64, compressed: bool, blake3_hash: String, reply_to: Option<u64>) -> (r: Self)
        ensures
            r == plain(id, sent_unix_ms, from_name, Body::File { name, mime, size_bytes, compressed, blake3_hash, reply_to }),
    {
        Envelope { id, from_name, sent_unix_ms, expires_at_unix_ms: None, body: Body::File { name, mime, size_bytes, compressed, blake3_hash, reply_to } }
    }

    /// The session-opening greeting.
    pub fn hello(id: u64, sent_unix_ms: u64, from_name: String) -> (r: Self)
        ensures
            r == plain(id, sent_unix_ms, from_name, Body::Hello),
    {
        Envelope { id, from_name, sent_unix_ms, expires_at_unix_ms: None, body: Body::Hello }
    }

    /// A receipt for the envelope `acked_id`.
    pub fn ack(id: u64, sent_unix_ms: u64, from_name: String, acked_id: u64) -> (r: Self)
        ensures
            r == plain(id, sent_unix_ms, from_name, Body::Ack(acked_id)),
    {
        Envelope { id, from_name, sent_unix_ms, expires_at_unix_ms: None, body: Body::Ack(acked_id) }
    }

    /// A reaction on the envelope `target_id`.
    pub fn reaction(id: u64, sent_unix_ms: u64, from_name: String, target_id: u64, emoji: String, remove: bool) -> (r: Self)
        ensures
            r == plain(id, sent_unix_ms, from_name, Body::Reaction { target_id, emoji, remove }),
    {
        Envelope { id, from_name, sent_unix_ms, expires_at_unix_ms: None, body: Body::Reaction { target_id, emoji, remove } }
    }

    /// An edit of the envelope `target_id`.
    pub fn edit(id: u64, sent_unix_ms: u64, from_name: String, target_id: u64, new_text: String) -> (r: Self)
        ensures
            r == plain(id, sent_unix_ms, from_name, Body::Edit { target_id, new_text }),
    {
        Envelope { id, from_name, sent_unix_ms, expires_at_unix_ms: None, body: Body::Edit { target_id, new_text } }
    }

    /// A deletion of the envelope `target_id`.
    pub fn delete(id: u64, sent_unix_ms: u64, from_name: String, target_id: u64) -> (r: Self)
        ensures
            r == plain(id, sent_unix_ms, from_name, Body::Delete { target_id }),
    {
        Envelope { id, from_name, sent_unix_ms, expires_at_unix_ms: None, body: Body::Delete { target_id } }
    }

    /// A read receipt up to the given send time.
    pub fn read_receipt(id: u64, sent_unix_ms: u64, from_name: String, up_to_sent_unix_ms: u64) -> (r: Self)
        ensures
            r == plain(id, sent_unix_ms, from_name, Body::Read { up_to_sent_unix_ms }),
    {
        Envelope { id, from_name, sent_unix_ms, expires_at_unix_ms: None, body: Body::Read { up_to_sent_unix_ms } }
    }

    /// A typing hint.
    pub fn typing(id: u64, sent_unix_ms: u64, from_name: String) -> (r: Self)
        ensures
            r == plain(id, sent_unix_ms, from_name, Body::Typing),
    {
        Envelope { id, from_name, sent_unix_ms, expires_at_unix_ms: None, body: Body::Typing }
    }

    /// A keepalive.
    pub fn ping(id: u64, sent_unix_ms: u64, from_name: String) -> (r: Self)
        ensures
            r == plain(id, sent_unix_ms, from_name, Body::Ping),
    {
        Envelope { id, from_name, sent_unix_ms, expires_at_unix_ms: None, body: Body::Ping }
    }

    /// A new display picture announcement.
    pub fn avatar_update(id: u64, sent_unix_ms: u64, from_name: String, blake3_hash: String, size_bytes: u64) -> (r: Self)
        ensures
            r == plain(id, sent_unix_ms, from_name, Body::AvatarUpdate { blake3_hash, size_bytes }),
    {
        Envelope { id, from_name, sent_unix_ms, expires_at_unix_ms: None, body: Body::AvatarUpdate { blake3_hash, size_bytes } }
    }

    /// A status update, which always expires.
    pub fn status(
        id: u64,
        sent_unix_ms: u64,
        from_name: String,
        text: String,
        image: Option<StatusImage>,
        video: Option<StatusVideo>,
        audio: Option<StatusAudio>,
        expires_at_unix_ms: u64,
    ) -> (r: Self)
        ensures
            r == (Envelope {
                id,
                from_name,
                sent_unix_ms,
                expires_at_unix_ms: Some(expires_at_unix_ms),
                body: Body::Status { text, image, video, audio },
            }),
    {
        Envelope {
            id,
            from_name,
            sent_unix_ms,
            expires_at_unix_ms: Some(expires_at_unix_ms),
            body: Body::Status { text, image, video, audio },
        }
    }

    /// Sets a disappearing-message expiry `ttl_secs` after this envelope's
    /// send time, or clears it for `None`.
    pub fn with_expiry(self, ttl_secs: Option<u64>) -> (r: Self)
        requires
            ttl_secs matches Some(secs) ==> self.sent_unix_ms + secs * 1000 <= u64::MAX,
        ensures
            r == (Envelope {
                expires_at_unix_ms: match ttl_secs {
                    Some(secs) => Some((self.sent_unix_ms + secs * 1000) as u64),
                    None => None,
                },
                ..self
            }),
    {
        let mut env = self;
        env.expires_at_unix_ms = match ttl_secs {
            Some(secs) => Some(env.sent_unix_ms + secs * 1000),
            None => None,
        };
        env
    }
}

} // verus!
