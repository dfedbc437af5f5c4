//! Records synced in conversation documents: a room's metadata, its
//! members and removals, and a direct conversation's shared settings, with
//! their stored form (postcard's layout), which reads back as written.
use vstd::prelude::*;
use vstd::utf8::encode_utf8;
use crate::clock::system_unix_ms;
use crate::util::{append_bytes, copy_bytes};
use crate::varint::WireError;
use crate::wire::{
    c_bool, c_opt, c_opt_str, c_str, c_take_bool, c_take_opt, c_take_opt_str, c_take_str, c_take_u64, c_u64,
    lemma_c_bool, lemma_c_opt, lemma_c_opt_str, lemma_c_str, lemma_c_u64, opt_chars, push_array32, push_c_bool,
    push_c_opt, push_c_opt_str, push_c_str, push_c_u64, take_array32, take_c_bool, take_c_opt, take_c_opt_str,
    take_c_str, take_c_u64,
};

verus! {

/// The wall clock in milliseconds since the Unix epoch, as the records
/// stamp it.
pub fn now_ms() -> (r: u64) {
    system_unix_ms()
}

/// A room's metadata; the first writer is its admin by convention.
#[derive(Debug, Clone, PartialEq)]
pub struct RoomMeta {
    pub name: String,
    pub title: String,
    pub admin: [u8; 32],
    pub created_at_ms: u64,
}

/// One member's self-attested presence, written under their own key.
#[derive(Debug, Clone, PartialEq)]
pub struct MemberRecord {
    pub endpoint_id: [u8; 32],
    pub display_name: String,
    pub joined_at_ms: u64,
}

/// A tombstone marking a member as removed.
#[derive(Debug, Clone)]
pub struct RemovalRecord {
    pub removed_at_ms: u64,
    pub removed_by: [u8; 32],
}

/// A direct conversation's synced settings.
#[derive(Debug, Clone, PartialEq)]
pub struct DmSettings {
    pub conversation_title: Option<String>,
    pub pinned: bool,
    pub archived: bool,
    /// Disappearing-message time to live in seconds; `None` is off.
    pub disappearing_ttl_secs: Option<u64>,
    pub updated_at_ms: u64,
}

impl Default for DmSettings {
    /// No title, not pinned or archived, messages do not disappear.
    fn default() -> (r: Self)
        ensures
            r.conversation_title is None,
            !r.pinned,
            !r.archived,
            r.disappearing_ttl_secs is None,
            r.updated_at_ms == 0,
    {
        DmSettings {
            conversation_title: None,
            pinned: false,
            archived: false,
            disappearing_ttl_secs: None,
            updated_at_ms: 0,
        }
    }
}

fn rest_of(b: &[u8], k: usize) -> (r: &[u8])
    requires
        k <= b@.len(),
    ensures
        r@ == b@.skip(k as int),
{
    let r = b.split_at(k).1;
    proof {
        assert(r@ =~= b@.skip(k as int));
    }
    r
}

/// A member record as plain values.
pub struct MemberView {
    pub endpoint_id: Seq<u8>,
    pub display_name: Seq<char>,
    pub joined_at_ms: u64,
}

/// Stored form of a member record: id bytes, name, join time.
pub open spec fn spec_encode_member(m: MemberView) -> Seq<u8> {
    m.endpoint_id + (c_str(m.display_name) + c_u64(m.joined_at_ms))
}

/// What stored bytes decode to as a member record.
pub open spec fn spec_decode_member(b: Seq<u8>) -> Result<MemberView, WireError> {
    if b.len() < 32 {
        Err(WireError::UnexpectedEnd)
    } else {
        let r = b.skip(32);
        match c_take_str(r) {
            Err(e) => Err(e),
            Ok((display_name, k1)) => match c_take_u64(r.skip(k1 as int)) {
                Err(e) => Err(e),
                Ok((joined_at_ms, _)) => Ok(
                    MemberView { endpoint_id: b.subrange(0, 32), display_name, joined_at_ms },
                ),
            },
        }
    }
}

impl MemberRecord {
    pub open spec fn view_of(&self) -> MemberView {
        MemberView { endpoint_id: self.endpoint_id@, display_name: self.display_name@, joined_at_ms: self.joined_at_ms }
    }

    /// The stored form, which decodes back to this record.
    pub fn encode(&self) -> (r: Vec<u8>)
        ensures
            r@ == spec_encode_member(self.view_of()),
            spec_decode_member(r@) == Ok::<MemberView, WireError>(self.view_of()),
    {
        let mut out: Vec<u8> = Vec::new();
        push_array32(&mut out, &self.endpoint_id);
        push_c_str(&mut out, self.display_name.as_str());
        push_c_u64(&mut out, self.joined_at_ms);
        proof {
            let v = self.view_of();
            let x1 = c_str(v.display_name);
            let x2 = c_u64(v.joined_at_ms);
            assert(out@ =~= v.endpoint_id + (x1 + x2));
            assert(out@.subrange(0, 32) =~= v.endpoint_id);
            assert(out@.skip(32) =~= x1 + x2);
            lemma_c_str(v.display_name, x2);
            assert((x1 + x2).skip(x1.len() as int) =~= x2 + Seq::<u8>::empty());
            lemma_c_u64(v.joined_at_ms, Seq::<u8>::empty());
        }
        out
    }

    /// Reads a member record from stored bytes.
    pub fn decode(bytes: &[u8]) -> (r: Result<MemberRecord, WireError>)
        ensures
            match r {
                Ok(m) => spec_decode_member(bytes@) == Ok::<MemberView, WireError>(m.view_of()),
                Err(e) => spec_decode_member(bytes@) == Err::<MemberView, WireError>(e),
            },
    {
        let (endpoint_id, _) = match take_array32(bytes) {
            Ok(x) => x,
            Err(e) => {
                return Err(e);
            },
        };
        let r = rest_of(bytes, 32);
        let (display_name, k1) = match take_c_str(r) {
            Ok(x) => x,
            Err(e) => {
                return Err(e);
            },
        };
        let (joined_at_ms, _) = match take_c_u64(rest_of(r, k1)) {
            Ok(x) => x,
            Err(e) => {
                return Err(e);
            },
        };
        Ok(MemberRecord { endpoint_id, display_name, joined_at_ms })
    }
}

/// A room's metadata as plain values.
pub struct RoomMetaView {
    pub name: Seq<char>,
    pub title: Seq<char>,
    pub admin: Seq<u8>,
    pub created_at_ms: u64,
}

/// Stored form of room metadata: name, title, admin id bytes, creation
/// time.
pub open spec fn spec_encode_room_meta(m: RoomMetaView) -> Seq<u8> {
    c_str(m.name) + (c_str(m.title) + (m.admin + c_u64(m.created_at_ms)))
}

/// What stored bytes decode to as room metadata.
pub open spec fn spec_decode_room_meta(b: Seq<u8>) -> Result<RoomMetaView, WireError> {
    match c_take_str(b) {
        Err(e) => Err(e),
        Ok((name, k1)) => match c_take_str(b.skip(k1 as int)) {
            Err(e) => Err(e),
            Ok((title, k2)) => {
                let r = b.skip((k1 + k2) as int);
                if r.len() < 32 {
                    Err(WireError::UnexpectedEnd)
                } else {
                    match c_take_u64(r.skip(32)) {
                        Err(e) => Err(e),
                        Ok((created_at_ms, _)) => Ok(
                            RoomMetaView { name, title, admin: r.subrange(0, 32), created_at_ms },
                        ),
                    }
                }
            },
        },
    }
}

impl RoomMeta {
    pub open spec fn view_of(&self) -> RoomMetaView {
        RoomMetaView { name: self.name@, title: self.title@, admin: self.admin@, created_at_ms: self.created_at_ms }
    }

    /// The stored form, which decodes back to this record.
    pub fn encode(&self) -> (r: Vec<u8>)
        ensures
            r@ == spec_encode_room_meta(self.view_of()),
            spec_decode_room_meta(r@) == Ok::<RoomMetaView, WireError>(self.view_of()),
    {
        let mut out: Vec<u8> = Vec::new();
        push_c_str(&mut out, self.name.as_str());
        push_c_str(&mut out, self.title.as_str());
        push_array32(&mut out, &self.admin);
        push_c_u64(&mut out, self.created_at_ms);
        proof {
            let v = self.view_of();
            let x1 = c_str(v.name);
            let x2 = c_str(v.title);
            let x4 = c_u64(v.created_at_ms);
            assert(out@ =~= x1 + (x2 + (v.admin + x4)));
            lemma_c_str(v.name, x2 + (v.admin + x4));
            assert(out@.skip(x1.len() as int) =~= x2 + (v.admin + x4));
            lemma_c_str(v.title, v.admin + x4);
            let r = out@.skip((x1.len() + x2.len()) as int);
            assert(r =~= v.admin + x4);
            assert(r.subrange(0, 32) =~= v.admin);
            assert(r.skip(32) =~= x4 + Seq::<u8>::empty());
            lemma_c_u64(v.created_at_ms, Seq::<u8>::empty());
        }
        out
    }

    /// Reads room metadata from stored bytes.
    pub fn decode(bytes: &[u8]) -> (r: Result<RoomMeta, WireError>)
        ensures
            match r {
                Ok(m) => spec_decode_room_meta(bytes@) == Ok::<RoomMetaView, WireError>(m.view_of()),
                Err(e) => spec_decode_room_meta(bytes@) == Err::<RoomMetaView, WireError>(e),
            },
    {
        // The input's length bounds the offsets summed below.
        let total = bytes.len();
        let (name, k1) = match take_c_str(bytes) {
            Ok(x) => x,
            Err(e) => {
                return Err(e);
            },
        };
        let (title, k2) = match take_c_str(rest_of(bytes, k1)) {
            Ok(x) => x,
            Err(e) => {
                return Err(e);
            },
        };
        let r = rest_of(bytes, k1 + k2);
        let (admin, _) = match take_array32(r) {
            Ok(x) => x,
            Err(e) => {
                return Err(e);
            },
        };
        let (created_at_ms, _) = match take_c_u64(rest_of(r, 32)) {
            Ok(x) => x,
            Err(e) => {
                return Err(e);
            },
        };
        Ok(RoomMeta { name, title, admin, created_at_ms })
    }
}

/// A removal tombstone as plain values.
pub struct RemovalView {
    pub removed_at_ms: u64,
    pub removed_by: Seq<u8>,
}

/// Stored form of a removal: the time, then the remover's id bytes.
pub open spec fn spec_encode_removal(m: RemovalView) -> Seq<u8> {
    c_u64(m.removed_at_ms) + m.removed_by
}

/// What stored bytes decode to as a removal.
pub open spec fn spec_decode_removal(b: Seq<u8>) -> Result<RemovalView, WireError> {
    match c_take_u64(b) {
        Err(e) => Err(e),
        Ok((removed_at_ms, k1)) => {
            let r = b.skip(k1 as int);
            if r.len() < 32 {
                Err(WireError::UnexpectedEnd)
            } else {
                Ok(RemovalView { removed_at_ms, removed_by: r.subrange(0, 32) })
            }
        },
    }
}

impl RemovalRecord {
    pub open spec fn view_of(&self) -> RemovalView {
        RemovalView { removed_at_ms: self.removed_at_ms, removed_by: self.removed_by@ }
    }

    /// The stored form, which decodes back to this record.
    pub fn encode(&self) -> (r: Vec<u8>)
        ensures
            r@ == spec_encode_removal(self.view_of()),
            spec_decode_removal(r@) == Ok::<RemovalView, WireError>(self.view_of()),
    {
        let mut out: Vec<u8> = Vec::new();
        push_c_u64(&mut out, self.removed_at_ms);
        push_array32(&mut out, &self.removed_by);
        proof {
            let v = self.view_of();
            let x1 = c_u64(v.removed_at_ms);
            lemma_c_u64(v.removed_at_ms, v.removed_by);
            assert(out@.skip(x1.len() as int) =~= v.removed_by);
            assert(v.removed_by.subrange(0, 32) =~= v.removed_by);
        }
        out
    }

    /// Reads a removal from stored bytes.
    pub fn decode(bytes: &[u8]) -> (r: Result<RemovalRecord, WireError>)
        ensures
            match r {
                Ok(m) => spec_decode_removal(bytes@) == Ok::<RemovalView, WireError>(m.view_of()),
                Err(e) => spec_decode_removal(bytes@) == Err::<RemovalView, WireError>(e),
            },
    {
        let (removed_at_ms, k1) = match take_c_u64(bytes) {
            Ok(x) => x,
            Err(e) => {
                return Err(e);
            },
        };
        let (removed_by, _) = match take_array32(rest_of(bytes, k1)) {
            Ok(x) => x,
            Err(e) => {
                return Err(e);
            },
        };
        Ok(RemovalRecord { removed_at_ms, removed_by })
    }
}

/// A conversation's settings as plain values.
pub struct DmSettingsView {
    pub conversation_title: Option<Seq<char>>,
    pub pinned: bool,
    pub archived: bool,
    pub disappearing_ttl_secs: Option<u64>,
    pub updated_at_ms: u64,
}

/// Stored form of the settings: fields in declaration order.
pub open spec fn spec_encode_dm_settings(m: DmSettingsView) -> Seq<u8> {
    c_opt_str(m.conversation_title) + (c_bool(m.pinned) + (c_bool(m.archived) + (c_opt(m.disappearing_ttl_secs)
        + c_u64(m.updated_at_ms))))
}

/// What stored bytes decode to as settings.
pub open spec fn spec_decode_dm_settings(b: Seq<u8>) -> Result<DmSettingsView, WireError> {
    match c_take_opt_str(b) {
        Err(e) => Err(e),
        Ok((conversation_title, k1)) => match c_take_bool(b.skip(k1 as int)) {
            Err(e) => Err(e),
            Ok((pinned, k2)) => match c_take_bool(b.skip((k1 + k2) as int)) {
                Err(e) => Err(e),
                Ok((archived, k3)) => match c_take_opt(b.skip((k1 + k2 + k3) as int)) {
                    Err(e) => Err(e),
                    Ok((disappearing_ttl_secs, k4)) => match c_take_u64(b.skip((k1 + k2 + k3 + k4) as int)) {
                        Err(e) => Err(e),
                        Ok((updated_at_ms, _)) => Ok(
                            DmSettingsView {
                                conversation_title,
                                pinned,
                                archived,
                                disappearing_ttl_secs,
                                updated_at_ms,
                            },
                        ),
                    },
                },
            },
        },
    }
}

impl DmSettings {
    pub open spec fn view_of(&self) -> DmSettingsView {
        DmSettingsView {
            conversation_title: opt_chars(self.conversation_title),
            pinned: self.pinned,
            archived: self.archived,
            disappearing_ttl_secs: self.disappearing_ttl_secs,
            updated_at_ms: self.updated_at_ms,
        }
    }

    /// The stored form, which decodes back to these settings.
    pub fn encode(&self) -> (r: Vec<u8>)
        ensures
            r@ == spec_encode_dm_settings(self.view_of()),
            spec_decode_dm_settings(r@) == Ok::<DmSettingsView, WireError>(self.view_of()),
    {
        let mut out: Vec<u8> = Vec::new();
        push_c_opt_str(&mut out, &self.conversation_title);
        push_c_bool(&mut out, self.pinned);
        push_c_bool(&mut out, self.archived);
        push_c_opt(&mut out, self.disappearing_ttl_secs);
        push_c_u64(&mut out, self.updated_at_ms);
        proof {
            let v = self.view_of();
            let x1 = c_opt_str(v.conversation_title);
            let x2 = c_bool(v.pinned);
            let x3 = c_bool(v.archived);
            let x4 = c_opt(v.disappearing_ttl_secs);
            let x5 = c_u64(v.updated_at_ms);
            let b = out@;
            assert(b =~= x1 + (x2 + (x3 + (x4 + x5))));
            lemma_c_opt_str(v.conversation_title, x2 + (x3 + (x4 + x5)));
            assert(b.skip(x1.len() as int) =~= x2 + (x3 + (x4 + x5)));
            lemma_c_bool(v.pinned, x3 + (x4 + x5));
            assert(b.skip((x1.len() + x2.len()) as int) =~= x3 + (x4 + x5));
            lemma_c_bool(v.archived, x4 + x5);
            assert(b.skip((x1.len() + x2.len() + x3.len()) as int) =~= x4 + x5);
            lemma_c_opt(v.disappearing_ttl_secs, x5);
            assert(b.skip((x1.len() + x2.len() + x3.len() + x4.len()) as int) =~= x5 + Seq::<u8>::empty());
            lemma_c_u64(v.updated_at_ms, Seq::<u8>::empty());
        }
        out
    }

    /// Reads settings from stored bytes.
    pub fn decode(bytes: &[u8]) -> (r: Result<DmSettings, WireError>)
        ensures
            match r {
                Ok(m) => spec_decode_dm_settings(bytes@) == Ok::<DmSettingsView, WireError>(m.view_of()),
                Err(e) => spec_decode_dm_settings(bytes@) == Err::<DmSettingsView, WireError>(e),
            },
    {
        // The input's length bounds the offsets summed below.
        let total = bytes.len();
        let (conversation_title, k1) = match take_c_opt_str(bytes) {
            Ok(x) => x,
            Err(e) => {
                return Err(e);
            },
        };
        let (pinned, k2) = match take_c_bool(rest_of(bytes, k1)) {
            Ok(x) => x,
            Err(e) => {
                return Err(e);
            },
        };
        let (archived, k3) = match take_c_bool(rest_of(bytes, k1 + k2)) {
            Ok(x) => x,
            Err(e) => {
                return Err(e);
            },
        };
        let (disappearing_ttl_secs, k4) = match take_c_opt(rest_of(bytes, k1 + k2 + k3)) {
            Ok(x) => x,
            Err(e) => {
                return Err(e);
            },
        };
        let (updated_at_ms, _) = match take_c_u64(rest_of(bytes, k1 + k2 + k3 + k4)) {
            Ok(x) => x,
            Err(e) => {
                return Err(e);
            },
        };
        Ok(DmSettings { conversation_title, pinned, archived, disappearing_ttl_secs, updated_at_ms })
    }
}

/// The lowercase hex digit for a value below 16.
pub open spec fn hex_digit(n: int) -> u8 {
    if n < 10 {
        (48 + n) as u8
    } else {
        (87 + n) as u8
    }
}

/// The value of a lowercase hex digit.
pub open spec fn hex_value(c: u8) -> Option<int> {
    if 48 <= c <= 57 {
        Some(c - 48)
    } else if 97 <= c <= 102 {
        Some(c - 87)
    } else {
        None
    }
}

/// Lowercase hex: two digits per byte, high nibble first.
pub open spec fn spec_hexlower(x: Seq<u8>) -> Seq<u8> {
    Seq::new(
        2 * x.len(),
        |i: int|
            hex_digit(
                if i % 2 == 0 {
                    x[i / 2] / 16
                } else {
                    x[i / 2] % 16
                } as int,
            ),
    )
}

/// Lowercase hex decoding: an even number of lowercase hex digits, two per
/// byte; anything else is refused.
pub open spec fn spec_hexlower_decode(b: Seq<u8>) -> Option<Seq<u8>> {
    if b.len() % 2 != 0 || exists|i: int| 0 <= i < b.len() && (#[trigger] hex_value(b[i])) is None {
        None
    } else {
        Some(
            Seq::new(
                (b.len() / 2) as nat,
                |i: int| (16 * hex_value(b[2 * i])->Some_0 + hex_value(b[2 * i + 1])->Some_0) as u8,
            ),
        )
    }
}

/// Calls `data_encoding::HEXLOWER.encode` and takes the string's bytes.
/// Trusted: lowercase hex, two digits per byte, high nibble first, as the
/// encoding's symbol table `0123456789abcdef` gives.
#[verifier::external_body]
fn hexlower_encode(data: &[u8]) -> (r: Vec<u8>)
    requires
        data@.len() <= usize::MAX / 512,
    ensures
        r@ == spec_hexlower(data@),
{
    data_encoding::HEXLOWER.encode(data).into_bytes()
}

/// Calls `data_encoding::HEXLOWER.decode`. Trusted: it accepts exactly an
/// even number of symbols from `0123456789abcdef` and gives two digits per
/// byte. The crate asserts inputs of at most `usize::MAX / 8` bytes, which
/// `requires` keeps to.
#[verifier::external_body]
fn hexlower_decode(data: &[u8]) -> (r: Option<Vec<u8>>)
    requires
        data@.len() <= usize::MAX / 8,
    ensures
        r matches Some(b) ==> spec_hexlower_decode(data@) == Some(b@),
        r is None ==> spec_hexlower_decode(data@) is None,
{
    data_encoding::HEXLOWER.decode(data).ok()
}

/// The document key under which a member's record is stored.
pub open spec fn spec_member_key(id: Seq<u8>) -> Seq<u8> {
    encode_utf8("member/"@) + spec_hexlower(id)
}

/// The document key under which a member's removal is stored.
pub open spec fn spec_removed_key(id: Seq<u8>) -> Seq<u8> {
    encode_utf8("removed/"@) + spec_hexlower(id)
}

/// The key of a member's record: `member/` and the id in lowercase hex.
pub fn member_key(id: &[u8; 32]) -> (r: Vec<u8>)
    ensures
        r@ == spec_member_key(id@),
{
    let mut out = copy_bytes("member/".as_bytes());
    let hex = hexlower_encode(id.as_slice());
    append_bytes(&mut out, hex.as_slice());
    out
}

/// The key of a member's removal: `removed/` and the id in lowercase hex.
pub fn removed_key(id: &[u8; 32]) -> (r: Vec<u8>)
    ensures
        r@ == spec_removed_key(id@),
{
    let mut out = copy_bytes("removed/".as_bytes());
    let hex = hexlower_encode(id.as_slice());
    append_bytes(&mut out, hex.as_slice());
    out
}

/// The removed member a removal key names: it must start with `removed/`
/// and the rest must be the lowercase hex of 32 bytes (so a rest longer
/// than the decoder takes names no one).
pub open spec fn spec_removed_id(key: Seq<u8>) -> Option<Seq<u8>> {
    let p = encode_utf8("removed/"@);
    if key.len() < p.len() || key.take(p.len() as int) != p {
        None
    } else if key.len() - p.len() > usize::MAX / 8 {
        None
    } else {
        match spec_hexlower_decode(key.skip(p.len() as int)) {
            Some(b) => if b.len() == 32 {
                Some(b)
            } else {
                None
            },
            None => None,
        }
    }
}

/// The member a removal key names, if it is one.
pub fn removed_id_from_key(key: &[u8]) -> (r: Option<[u8; 32]>)
    ensures
        match r {
            Some(id) => spec_removed_id(key@) == Some(id@),
            None => spec_removed_id(key@) is None,
        },
{
    let p = "removed/".as_bytes();
    if key.len() < p.len() {
        return None;
    }
    let (head, rest) = key.split_at(p.len());
    if !crate::util::bytes_equal(head, p) {
        return None;
    }
    if rest.len() > usize::MAX / 8 {
        return None;
    }
    let bytes = match hexlower_decode(rest) {
        Some(b) => b,
        None => {
            return None;
        },
    };
    if bytes.len() != 32 {
        return None;
    }
    match take_array32(bytes.as_slice()) {
        Ok((id, _)) => {
            proof {
                assert(bytes@.subrange(0, 32) =~= bytes@);
            }
            Some(id)
        },
        Err(_) => None,
    }
}

proof fn lemma_hex_roundtrip(x: Seq<u8>)
    ensures
        spec_hexlower_decode(spec_hexlower(x)) == Some(x),
{
    let h = spec_hexlower(x);
    assert forall|i: int| 0 <= i < h.len() implies (#[trigger] hex_value(h[i])) is Some by {
        let n: int = if i % 2 == 0 {
            x[i / 2] / 16
        } else {
            x[i / 2] % 16
        } as int;
        assert(0 <= n < 16);
    }
    assert(h.len() % 2 == 0);
    let d = spec_hexlower_decode(h)->Some_0;
    assert forall|i: int| 0 <= i < x.len() implies #[trigger] d[i] == x[i] by {
        assert((2 * i) % 2 == 0);
        assert((2 * i + 1) % 2 == 1);
        assert((2 * i) / 2 == i);
        assert((2 * i + 1) / 2 == i);
        let hi = x[i] / 16;
        let lo = x[i] % 16;
        assert(hex_value(h[2 * i])->Some_0 == hi as int);
        assert(hex_value(h[2 * i + 1])->Some_0 == lo as int);
        assert(16 * (hi as int) + lo as int == x[i] as int);
    }
    assert(d =~= x);
}

/// A removal key reads back as the member it was made for.
pub proof fn lemma_removed_key_names_member(id: Seq<u8>)
    requires
        id.len() == 32,
    ensures
        spec_removed_id(spec_removed_key(id)) == Some(id),
{
    let p = encode_utf8("removed/"@);
    let k = spec_removed_key(id);
    assert(k.take(p.len() as int) =~= p);
    assert(k.skip(p.len() as int) =~= spec_hexlower(id));
    lemma_hex_roundtrip(id);
}

/// Whether `id` is among the removed members.
pub open spec fn is_removed(removed: Seq<[u8; 32]>, id: [u8; 32]) -> bool {
    exists|i: int| 0 <= i < removed.len() && (#[trigger] removed[i])@ == id@
}

/// A member is listed unless a removal tombstone names them.
pub open spec fn is_visible(removed: Seq<[u8; 32]>) -> spec_fn(MemberRecord) -> bool {
    |m: MemberRecord| !is_removed(removed, m.endpoint_id)
}

fn id_removed(removed: &[[u8; 32]], id: &[u8; 32]) -> (r: bool)
    ensures
        r == is_removed(removed@, *id),
{
    let mut i: usize = 0;
    while i < removed.len()
        invariant
            i <= removed@.len(),
            forall|j: int| 0 <= j < i ==> (#[trigger] removed@[j])@ != id@,
        decreases removed@.len() - i,
    {
        if crate::util::bytes_equal(removed[i].as_slice(), id.as_slice()) {
            return true;
        }
        i += 1;
    }
    false
}

/// The room's member list: the member records in their order, without
/// those a removal tombstone names.
pub fn visible_members(members: Vec<MemberRecord>, removed: &[[u8; 32]]) -> (r: Vec<MemberRecord>)
    ensures
        r@ == members@.filter(is_visible(removed@)),
{
    let ghost orig = members@;
    let ghost pred = is_visible(removed@);
    let mut rest = members;
    let mut out: Vec<MemberRecord> = Vec::new();
    let n = rest.len();
    let mut i: usize = 0;
    while i < n
        invariant
            n == orig.len(),
            i <= n,
            pred == is_visible(removed@),
            rest@ == orig.skip(i as int),
            out@ == orig.take(i as int).filter(pred),
        decreases n - i,
    {
        let m = rest.remove(0);
        proof {
            assert(m == orig[i as int]);
            assert(orig.take(i + 1) =~= orig.take(i as int).push(orig[i as int]));
            orig.take(i as int).lemma_filter_push(orig[i as int], pred);
            assert(rest@ =~= orig.skip(i + 1));
        }
        if !id_removed(removed, &m.endpoint_id) {
            out.push(m);
        }
        i += 1;
    }
    proof {
        assert(orig.take(n as int) =~= orig);
    }
    out
}

} // verus!
