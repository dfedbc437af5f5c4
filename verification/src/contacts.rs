//! Contact request messages, their wire form, and what receiving one
//! does to the sender's contact row.
use vstd::prelude::*;
use vstd::utf8::encode_utf8;
use crate::store::ContactState;
use crate::varint::{WireError, lemma_varint32_roundtrip};
use crate::wire::{
    c_opt_str, c_str, c_tag, c_take_opt_str, c_take_str, c_take_tag, lemma_c_opt_str, lemma_c_str, opt_chars,
    push_array32, push_c_opt_str, push_c_str, push_tag, take_array32, take_c_opt_str, take_c_str, take_tag,
};

verus! {

/// A contact request, its acceptance, or its rejection.
#[derive(Debug, Clone)]
pub enum ContactMsg {
    Request { from_id: [u8; 32], from_username: Option<String>, from_name: String, note: String },
    Accept { from_id: [u8; 32], from_username: Option<String>, from_name: String },
    Reject { from_id: [u8; 32] },
}

/// The change a received contact message makes to the sender's row.
#[derive(Debug, Clone)]
pub enum ContactUpdate {
    /// Insert or update the sender with this username, name and state.
    Upsert { username: Option<String>, name: String, state: ContactState },
    /// Remove the sender's row.
    Remove,
}

/// A request files the sender as pending in our inbox; an acceptance
/// makes them a mutual contact; a rejection removes them.
pub open spec fn spec_contact_update(msg: ContactMsg) -> ContactUpdate {
    match msg {
        ContactMsg::Request { from_username, from_name, .. } => ContactUpdate::Upsert {
            username: from_username,
            name: from_name,
            state: ContactState::PendingIn,
        },
        ContactMsg::Accept { from_username, from_name, .. } => ContactUpdate::Upsert {
            username: from_username,
            name: from_name,
            state: ContactState::Accepted,
        },
        ContactMsg::Reject { .. } => ContactUpdate::Remove,
    }
}

/// What a received contact message does to the sender's row (messages
/// from a blocked sender are dropped before this).
pub fn contact_update(msg: ContactMsg) -> (r: ContactUpdate)
    ensures
        r == spec_contact_update(msg),
{
    match msg {
        ContactMsg::Request { from_username, from_name, .. } => ContactUpdate::Upsert {
            username: from_username,
            name: from_name,
            state: ContactState::PendingIn,
        },
        ContactMsg::Accept { from_username, from_name, .. } => ContactUpdate::Upsert {
            username: from_username,
            name: from_name,
            state: ContactState::Accepted,
        },
        ContactMsg::Reject { .. } => ContactUpdate::Remove,
    }
}

/// A request and an acceptance both file the sender exactly as the message
/// names them (username and display name, untouched) and differ only in
/// the state: a request leaves them pending in our inbox, an acceptance
/// makes them a contact; neither the sender id nor the note changes the
/// row; a rejection removes it.
pub proof fn lemma_update_keeps_sender(from_id: [u8; 32], other_id: [u8; 32], from_username: Option<String>, from_name: String, note: String, other_note: String)
    ensures
        spec_contact_update(ContactMsg::Request { from_id, from_username, from_name, note }) matches ContactUpdate::Upsert {
            username,
            name,
            state,
        } && username == from_username && name == from_name && state == ContactState::PendingIn,
        spec_contact_update(ContactMsg::Accept { from_id, from_username, from_name }) matches ContactUpdate::Upsert {
            username,
            name,
            state,
        } && username == from_username && name == from_name && state == ContactState::Accepted,
        spec_contact_update(ContactMsg::Request { from_id, from_username, from_name, note }) == spec_contact_update(
            ContactMsg::Request { from_id: other_id, from_username, from_name, note: other_note },
        ),
        spec_contact_update(ContactMsg::Accept { from_id, from_username, from_name }) == spec_contact_update(
            ContactMsg::Accept { from_id: other_id, from_username, from_name },
        ),
        spec_contact_update(ContactMsg::Reject { from_id }) is Remove,
{
}

/// A contact message as plain values.
pub enum ContactMsgView {
    Request { from_id: Seq<u8>, from_username: Option<Seq<char>>, from_name: Seq<char>, note: Seq<char> },
    Accept { from_id: Seq<u8>, from_username: Option<Seq<char>>, from_name: Seq<char> },
    Reject { from_id: Seq<u8> },
}

pub open spec fn contact_msg_view(m: ContactMsg) -> ContactMsgView {
    match m {
        ContactMsg::Request { from_id, from_username, from_name, note } => ContactMsgView::Request {
            from_id: from_id@,
            from_username: opt_chars(from_username),
            from_name: from_name@,
            note: note@,
        },
        ContactMsg::Accept { from_id, from_username, from_name } => ContactMsgView::Accept {
            from_id: from_id@,
            from_username: opt_chars(from_username),
            from_name: from_name@,
        },
        ContactMsg::Reject { from_id } => ContactMsgView::Reject { from_id: from_id@ },
    }
}

/// The wire form (postcard's): variant index, the sender id's 32 bytes,
/// then the variant's other fields.
pub open spec fn spec_encode_contact_msg(m: ContactMsgView) -> Seq<u8> {
    match m {
        ContactMsgView::Request { from_id, from_username, from_name, note } => c_tag(0) + (from_id + (c_opt_str(
            from_username,
        ) + (c_str(from_name) + c_str(note)))),
        ContactMsgView::Accept { from_id, from_username, from_name } => c_tag(1) + (from_id + (c_opt_str(
            from_username,
        ) + c_str(from_name))),
        ContactMsgView::Reject { from_id } => c_tag(2) + from_id,
    }
}

/// The fields after the sender id, for a request (`t == 0`) or an
/// acceptance (`t == 1`).
pub open spec fn take_named_fields(r2: Seq<u8>, t: u32, from_id: Seq<u8>) -> Result<ContactMsgView, WireError> {
    match c_take_opt_str(r2) {
        Err(e) => Err(e),
        Ok((from_username, k1)) => match c_take_str(r2.skip(k1 as int)) {
            Err(e) => Err(e),
            Ok((from_name, k2)) => if t == 1 {
                Ok(ContactMsgView::Accept { from_id, from_username, from_name })
            } else {
                match c_take_str(r2.skip((k1 + k2) as int)) {
                    Err(e) => Err(e),
                    Ok((note, _)) => Ok(ContactMsgView::Request { from_id, from_username, from_name, note }),
                }
            },
        },
    }
}

/// What bytes decode to; trailing bytes are ignored.
pub open spec fn spec_decode_contact_msg(b: Seq<u8>) -> Result<ContactMsgView, WireError> {
    match c_take_tag(b) {
        Err(e) => Err(e),
        Ok((t, k0)) => {
            let r = b.skip(k0 as int);
            if t > 2 {
                Err(WireError::UnknownVariant)
            } else if r.len() < 32 {
                Err(WireError::UnexpectedEnd)
            } else if t == 2 {
                Ok(ContactMsgView::Reject { from_id: r.subrange(0, 32) })
            } else {
                take_named_fields(r.skip(32), t, r.subrange(0, 32))
            }
        },
    }
}

/// The strings of a message fit a 64-bit length.
pub open spec fn contact_msg_fits(m: ContactMsgView) -> bool {
    match m {
        ContactMsgView::Request { from_id, from_username, from_name, note } => from_id.len() == 32 && (
        from_username matches Some(u) ==> encode_utf8(u).len() <= u64::MAX) && encode_utf8(from_name).len()
            <= u64::MAX && encode_utf8(note).len() <= u64::MAX,
        ContactMsgView::Accept { from_id, from_username, from_name } => from_id.len() == 32 && (
        from_username matches Some(u) ==> encode_utf8(u).len() <= u64::MAX) && encode_utf8(from_name).len()
            <= u64::MAX,
        ContactMsgView::Reject { from_id } => from_id.len() == 32,
    }
}

proof fn lemma_tag_then(t: u32, rest: Seq<u8>)
    ensures
        c_take_tag(c_tag(t as nat) + rest) == Ok::<(u32, nat), WireError>((t, c_tag(t as nat).len())),
{
    reveal(c_take_tag);
    reveal(c_tag);
    lemma_varint32_roundtrip(t, rest);
}

proof fn lemma_request_roundtrip(m: ContactMsgView)
    requires
        contact_msg_fits(m),
        m is Request,
    ensures
        spec_decode_contact_msg(spec_encode_contact_msg(m)) == Ok::<ContactMsgView, WireError>(m),
{
    if let ContactMsgView::Request { from_id, from_username, from_name, note } = m {
        let x2 = c_opt_str(from_username);
        let x3 = c_str(from_name);
        let x4 = c_str(note);
        let r = from_id + (x2 + (x3 + x4));
        lemma_tag_then(0, r);
        assert(spec_encode_contact_msg(m).skip(c_tag(0).len() as int) =~= r);
        assert(r.subrange(0, 32) =~= from_id);
        let r2 = r.skip(32);
        assert(r2 =~= x2 + (x3 + x4));
        lemma_c_opt_str(from_username, x3 + x4);
        assert(r2.skip(x2.len() as int) =~= x3 + x4);
        lemma_c_str(from_name, x4);
        assert(r2.skip((x2.len() + x3.len()) as int) =~= x4 + Seq::<u8>::empty());
        lemma_c_str(note, Seq::<u8>::empty());
    }
}

proof fn lemma_accept_roundtrip(m: ContactMsgView)
    requires
        contact_msg_fits(m),
        m is Accept,
    ensures
        spec_decode_contact_msg(spec_encode_contact_msg(m)) == Ok::<ContactMsgView, WireError>(m),
{
    if let ContactMsgView::Accept { from_id, from_username, from_name } = m {
        let x2 = c_opt_str(from_username);
        let x3 = c_str(from_name);
        let r = from_id + (x2 + x3);
        lemma_tag_then(1, r);
        assert(spec_encode_contact_msg(m).skip(c_tag(1).len() as int) =~= r);
        assert(r.subrange(0, 32) =~= from_id);
        let r2 = r.skip(32);
        assert(r2 =~= x2 + x3);
        lemma_c_opt_str(from_username, x3);
        assert(r2.skip(x2.len() as int) =~= x3 + Seq::<u8>::empty());
        lemma_c_str(from_name, Seq::<u8>::empty());
    }
}

/// A contact message reads back as written.
pub proof fn lemma_contact_msg_roundtrip(m: ContactMsgView)
    requires
        contact_msg_fits(m),
    ensures
        spec_decode_contact_msg(spec_encode_contact_msg(m)) == Ok::<ContactMsgView, WireError>(m),
{
    match m {
        ContactMsgView::Request { .. } => lemma_request_roundtrip(m),
        ContactMsgView::Accept { .. } => lemma_accept_roundtrip(m),
        ContactMsgView::Reject { from_id } => {
            lemma_tag_then(2, from_id);
            assert(spec_encode_contact_msg(m).skip(c_tag(2).len() as int) =~= from_id);
            assert(from_id.subrange(0, 32) =~= from_id);
        },
    }
}

impl ContactMsg {
    /// The wire form, which decodes back to this message.
    pub fn encode(&self) -> (r: Vec<u8>)
        ensures
            r@ == spec_encode_contact_msg(contact_msg_view(*self)),
            spec_decode_contact_msg(r@) == Ok::<ContactMsgView, WireError>(contact_msg_view(*self)),
    {
        let mut out: Vec<u8> = Vec::new();
        match self {
            ContactMsg::Request { from_id, from_username, from_name, note } => {
                push_tag(&mut out, 0);
                push_array32(&mut out, from_id);
                push_c_opt_str(&mut out, from_username);
                push_c_str(&mut out, from_name.as_str());
                push_c_str(&mut out, note.as_str());
            },
            ContactMsg::Accept { from_id, from_username, from_name } => {
                push_tag(&mut out, 1);
                push_array32(&mut out, from_id);
                push_c_opt_str(&mut out, from_username);
                push_c_str(&mut out, from_name.as_str());
            },
            ContactMsg::Reject { from_id } => {
                push_tag(&mut out, 2);
                push_array32(&mut out, from_id);
            },
        }
        proof {
            assert(out@ =~= spec_encode_contact_msg(contact_msg_view(*self)));
            lemma_contact_msg_roundtrip(contact_msg_view(*self));
        }
        out
    }

    /// Reads a contact message from received bytes.
    pub fn decode(bytes: &[u8]) -> (r: Result<ContactMsg, WireError>)
        ensures
            match r {
                Ok(m) => spec_decode_contact_msg(bytes@) == Ok::<ContactMsgView, WireError>(contact_msg_view(m)),
                Err(e) => spec_decode_contact_msg(bytes@) == Err::<ContactMsgView, WireError>(e),
            },
    {
        let (t, k0) = match take_tag(bytes) {
            Ok(x) => x,
            Err(e) => {
                return Err(e);
            },
        };
        let r = bytes.split_at(k0).1;
        proof {
            assert(r@ =~= bytes@.skip(k0 as int));
        }
        if t > 2 {
            return Err(WireError::UnknownVariant);
        }
        let (from_id, _) = match take_array32(r) {
            Ok(x) => x,
            Err(e) => {
                return Err(e);
            },
        };
        if t == 2 {
            return Ok(ContactMsg::Reject { from_id });
        }
        let r2 = r.split_at(32).1;
        proof {
            assert(r2@ =~= r@.skip(32));
        }
        let (from_username, k1) = match take_c_opt_str(r2) {
            Ok(x) => x,
            Err(e) => {
                return Err(e);
            },
        };
        let r3 = r2.split_at(k1).1;
        proof {
            assert(r3@ =~= r2@.skip(k1 as int));
        }
        let (from_name, k2) = match take_c_str(r3) {
            Ok(x) => x,
            Err(e) => {
                return Err(e);
            },
        };
        if t == 1 {
            return Ok(ContactMsg::Accept { from_id, from_username, from_name });
        }
        let r4 = r3.split_at(k2).1;
        proof {
            assert(r4@ =~= r2@.skip((k1 + k2) as int));
        }
        let (note, _) = match take_c_str(r4) {
            Ok(x) => x,
            Err(e) => {
                return Err(e);
            },
        };
        Ok(ContactMsg::Request { from_id, from_username, from_name, note })
    }
}

} // verus!
