//! The records the local store keeps, and the settings and state values
//! it persists as text.
use vstd::prelude::*;
use vstd::string::StringExecFns;
use crate::text::{join_commas, join_with_commas, split_commas, string_views};
use crate::util::str_eq;

verus! {

/// Where a contact relationship stands.
#[derive(Debug, Clone, Copy, PartialEq, Eq, Structural)]
pub enum ContactState {
    /// We asked and are waiting.
    PendingOut,
    /// They asked; it sits in our inbox.
    PendingIn,
    /// Mutually accepted: direct messages are allowed.
    Accepted,
    /// Blocked: their traffic is dropped silently.
    Blocked,
}

/// A stored contact state that is none of the known names.
#[derive(Debug, Clone)]
pub struct UnknownContactState(pub String);

pub open spec fn contact_state_name(s: ContactState) -> Seq<char> {
    match s {
        ContactState::PendingOut => "pending_out"@,
        ContactState::PendingIn => "pending_in"@,
        ContactState::Accepted => "accepted"@,
        ContactState::Blocked => "blocked"@,
    }
}

pub open spec fn spec_parse_contact_state(s: Seq<char>) -> Option<ContactState> {
    if s == "pending_out"@ {
        Some(ContactState::PendingOut)
    } else if s == "pending_in"@ {
        Some(ContactState::PendingIn)
    } else if s == "accepted"@ {
        Some(ContactState::Accepted)
    } else if s == "blocked"@ {
        Some(ContactState::Blocked)
    } else {
        None
    }
}

impl ContactState {
    /// The name stored in the database.
    pub fn as_str(self) -> (r: &'static str)
        ensures
            r@ == contact_state_name(self),
    {
        match self {
            ContactState::PendingOut => "pending_out",
            ContactState::PendingIn => "pending_in",
            ContactState::Accepted => "accepted",
            ContactState::Blocked => "blocked",
        }
    }

    /// The state a stored name stands for; any other name is an error
    /// carrying it.
    pub fn parse(s: &str) -> (r: Result<Self, UnknownContactState>)
        ensures
            match r {
                Ok(c) => spec_parse_contact_state(s@) == Some(c),
                Err(e) => spec_parse_contact_state(s@) is None && e.0@ == s@,
            },
    {
        if str_eq(s, "pending_out") {
            Ok(ContactState::PendingOut)
        } else if str_eq(s, "pending_in") {
            Ok(ContactState::PendingIn)
        } else if str_eq(s, "accepted") {
            Ok(ContactState::Accepted)
        } else if str_eq(s, "blocked") {
            Ok(ContactState::Blocked)
        } else {
            Err(UnknownContactState(s.to_owned()))
        }
    }
}

/// One contact row.
#[derive(Debug, Clone)]
pub struct Contact {
    /// Hex-encoded endpoint id.
    pub endpoint_id: String,
    pub username: Option<String>,
    pub alias: String,
    pub state: ContactState,
    pub requested_at: i64,
    /// Confirmed out of band (QR scan or manual compare); never set by the
    /// other side.
    pub verified: bool,
    /// BLAKE3 hex hash of the contact's current display picture, once
    /// announced.
    pub avatar_hash: Option<String>,
}

/// A conversation: a direct one with a peer (hex endpoint id) or a room
/// (by name).
#[derive(Debug, Clone)]
pub enum Conversation {
    Dm(String),
    Room(String),
}

impl Conversation {
    /// The conversation's kind (`dm` or `room`) and key (the peer's hex
    /// endpoint id or the room name), as rows are filed under.
    pub fn kind_and_key(&self) -> (r: (&'static str, &str))
        ensures
            match *self {
                Conversation::Dm(id) => r.0@ == "dm"@ && r.1@ == id@,
                Conversation::Room(name) => r.0@ == "room"@ && r.1@ == name@,
            },
    {
        match self {
            Conversation::Dm(id) => ("dm", id.as_str()),
            Conversation::Room(name) => ("room", name.as_str()),
        }
    }
}

/// Light or dark, or following the system.
#[derive(Debug, Clone, Copy, PartialEq, Eq, Structural)]
pub enum ThemeMode {
    System,
    Light,
    Dark,
}

pub open spec fn theme_mode_name(m: ThemeMode) -> Seq<char> {
    match m {
        ThemeMode::System => "system"@,
        ThemeMode::Light => "light"@,
        ThemeMode::Dark => "dark"@,
    }
}

pub open spec fn spec_parse_theme_mode(s: Seq<char>) -> Option<ThemeMode> {
    if s == "system"@ {
        Some(ThemeMode::System)
    } else if s == "light"@ {
        Some(ThemeMode::Light)
    } else if s == "dark"@ {
        Some(ThemeMode::Dark)
    } else {
        None
    }
}

impl ThemeMode {
    pub fn as_str(self) -> (r: &'static str)
        ensures
            r@ == theme_mode_name(self),
    {
        match self {
            ThemeMode::System => "system",
            ThemeMode::Light => "light",
            ThemeMode::Dark => "dark",
        }
    }

    pub fn parse(s: &str) -> (r: Option<Self>)
        ensures
            r == spec_parse_theme_mode(s@),
    {
        if str_eq(s, "system") {
            Some(ThemeMode::System)
        } else if str_eq(s, "light") {
            Some(ThemeMode::Light)
        } else if str_eq(s, "dark") {
            Some(ThemeMode::Dark)
        } else {
            None
        }
    }
}

/// The app's visual language; the hacker styles override the theme mode.
#[derive(Debug, Clone, Copy, PartialEq, Eq, Structural)]
pub enum ThemeStyle {
    Regular,
    HackerGreen,
    HackerRed,
}

pub open spec fn theme_style_name(m: ThemeStyle) -> Seq<char> {
    match m {
        ThemeStyle::Regular => "regular"@,
        ThemeStyle::HackerGreen => "hacker-green"@,
        ThemeStyle::HackerRed => "hacker-red"@,
    }
}

pub open spec fn spec_parse_theme_style(s: Seq<char>) -> Option<ThemeStyle> {
    if s == "regular"@ {
        Some(ThemeStyle::Regular)
    } else if s == "hacker-green"@ {
        Some(ThemeStyle::HackerGreen)
    } else if s == "hacker-red"@ {
        Some(ThemeStyle::HackerRed)
    } else {
        None
    }
}

impl ThemeStyle {
    pub fn as_str(self) -> (r: &'static str)
        ensures
            r@ == theme_style_name(self),
    {
        match self {
            ThemeStyle::Regular => "regular",
            ThemeStyle::HackerGreen => "hacker-green",
            ThemeStyle::HackerRed => "hacker-red",
        }
    }

    pub fn parse(s: &str) -> (r: Option<Self>)
        ensures
            r == spec_parse_theme_style(s@),
    {
        if str_eq(s, "regular") {
            Some(ThemeStyle::Regular)
        } else if str_eq(s, "hacker-green") {
            Some(ThemeStyle::HackerGreen)
        } else if str_eq(s, "hacker-red") {
            Some(ThemeStyle::HackerRed)
        } else {
            None
        }
    }
}

/// What a stored message is.
#[derive(Debug, Clone)]
pub enum MessageKind {
    Text,
    File { name: String, hash: String, size_bytes: u64, compressed: bool },
}

/// One stored message row.
#[derive(Debug, Clone)]
pub struct StoredMessage {
    pub sender_name: String,
    /// Text content, or the file name for a file.
    pub body: String,
    pub sent_unix_ms: i64,
    pub outgoing: bool,
    pub kind: MessageKind,
    /// Absolute expiry of a disappearing message.
    pub expires_at_unix_ms: Option<i64>,
    /// The wire envelope id, where known.
    pub envelope_id: Option<u64>,
    /// When the body was last edited, if it was.
    pub edited_at_unix_ms: Option<i64>,
    /// Tombstoned by a delete.
    pub deleted: bool,
    /// `(sender id hex, emoji)`, one per reacting person.
    pub reactions: Vec<(String, String)>,
    /// The envelope id this message replies to, if any.
    pub reply_to_envelope_id: Option<u64>,
}

/// Who placed a call.
#[derive(Debug, Clone, Copy, PartialEq, Eq, Structural)]
pub enum CallDirection {
    Incoming,
    Outgoing,
}

pub open spec fn call_direction_name(d: CallDirection) -> Seq<char> {
    match d {
        CallDirection::Incoming => "incoming"@,
        CallDirection::Outgoing => "outgoing"@,
    }
}

impl CallDirection {
    pub fn as_str(self) -> (r: &'static str)
        ensures
            r@ == call_direction_name(self),
    {
        match self {
            CallDirection::Incoming => "incoming",
            CallDirection::Outgoing => "outgoing",
        }
    }

    /// `Outgoing` for "outgoing", `Incoming` for anything else.
    pub fn from_str(s: &str) -> (r: Self)
        ensures
            r == (if s@ == "outgoing"@ {
                CallDirection::Outgoing
            } else {
                CallDirection::Incoming
            }),
    {
        if str_eq(s, "outgoing") {
            CallDirection::Outgoing
        } else {
            CallDirection::Incoming
        }
    }
}

/// How a call ended.
#[derive(Debug, Clone, Copy, PartialEq, Eq, Structural)]
pub enum CallOutcome {
    Completed,
    Declined,
    Missed,
    Failed,
}

pub open spec fn call_outcome_name(o: CallOutcome) -> Seq<char> {
    match o {
        CallOutcome::Completed => "completed"@,
        CallOutcome::Declined => "declined"@,
        CallOutcome::Missed => "missed"@,
        CallOutcome::Failed => "failed"@,
    }
}

/// The stored outcome names; anything unknown reads as completed.
pub open spec fn spec_call_outcome_from(s: Seq<char>) -> CallOutcome {
    if s == "declined"@ {
        CallOutcome::Declined
    } else if s == "missed"@ {
        CallOutcome::Missed
    } else if s == "failed"@ {
        CallOutcome::Failed
    } else {
        CallOutcome::Completed
    }
}

impl CallOutcome {
    pub fn as_str(self) -> (r: &'static str)
        ensures
            r@ == call_outcome_name(self),
    {
        match self {
            CallOutcome::Completed => "completed",
            CallOutcome::Declined => "declined",
            CallOutcome::Missed => "missed",
            CallOutcome::Failed => "failed",
        }
    }

    pub fn from_str(s: &str) -> (r: Self)
        ensures
            r == spec_call_outcome_from(s@),
    {
        if str_eq(s, "declined") {
            CallOutcome::Declined
        } else if str_eq(s, "missed") {
            CallOutcome::Missed
        } else if str_eq(s, "failed") {
            CallOutcome::Failed
        } else {
            CallOutcome::Completed
        }
    }
}

/// One call log row.
#[derive(Debug, Clone, PartialEq)]
pub struct CallLogEntry {
    pub peer_id: String,
    pub peer_name: String,
    pub direction: CallDirection,
    pub outcome: CallOutcome,
    pub started_at_ms: i64,
    pub duration_secs: i64,
}

/// One status row; each attachment is announced by hash and size.
#[derive(Debug, Clone, PartialEq)]
pub struct StatusEntry {
    pub peer_id: String,
    pub peer_name: String,
    pub text: String,
    pub posted_at_ms: i64,
    pub expires_at_ms: i64,
    pub image_hash: Option<String>,
    pub image_size_bytes: Option<u64>,
    pub video_hash: Option<String>,
    pub video_size_bytes: Option<u64>,
    pub audio_hash: Option<String>,
    pub audio_size_bytes: Option<u64>,
}

/// Every stored name reads back as the value it was written from.
pub proof fn lemma_stored_names_roundtrip(c: ContactState, m: ThemeMode, s: ThemeStyle, d: CallDirection, o: CallOutcome)
    ensures
        spec_parse_contact_state(contact_state_name(c)) == Some(c),
        spec_parse_theme_mode(theme_mode_name(m)) == Some(m),
        spec_parse_theme_style(theme_style_name(s)) == Some(s),
        (if call_direction_name(d) == "outgoing"@ {
            CallDirection::Outgoing
        } else {
            CallDirection::Incoming
        }) == d,
        spec_call_outcome_from(call_outcome_name(o)) == o,
{
    reveal_strlit("pending_out");
    reveal_strlit("pending_in");
    reveal_strlit("accepted");
    reveal_strlit("blocked");
    reveal_strlit("system");
    reveal_strlit("light");
    reveal_strlit("dark");
    reveal_strlit("regular");
    reveal_strlit("hacker-green");
    reveal_strlit("hacker-red");
    reveal_strlit("incoming");
    reveal_strlit("outgoing");
    reveal_strlit("completed");
    reveal_strlit("declined");
    reveal_strlit("missed");
    reveal_strlit("failed");
    assert("pending_out"@.len() == 11);
    assert("pending_in"@.len() == 10);
    assert("accepted"@.len() == 8);
    assert("blocked"@.len() == 7);
    assert("system"@.len() == 6);
    assert("light"@.len() == 5);
    assert("dark"@.len() == 4);
    assert("regular"@.len() == 7);
    assert("hacker-green"@.len() == 12);
    assert("hacker-red"@.len() == 10);
    assert("incoming"@[0] == 'i');
    assert("outgoing"@[0] == 'o');
    assert("completed"@.len() == 9);
    assert("declined"@.len() == 8);
    assert("missed"@.len() == 6);
    assert("failed"@.len() == 6);
    assert("missed"@[0] == 'm');
    assert("failed"@[0] == 'f');
}

/// A stored theme mode, `System` where none (or an unknown one) is
/// stored.
pub fn theme_mode_setting(stored: Option<&str>) -> (r: ThemeMode)
    ensures
        r == match stored {
            Some(v) => match spec_parse_theme_mode(v@) {
                Some(m) => m,
                None => ThemeMode::System,
            },
            None => ThemeMode::System,
        },
{
    match stored {
        Some(v) => match ThemeMode::parse(v) {
            Some(m) => m,
            None => ThemeMode::System,
        },
        None => ThemeMode::System,
    }
}

/// A stored theme style, `Regular` where none (or an unknown one) is
/// stored.
pub fn theme_style_setting(stored: Option<&str>) -> (r: ThemeStyle)
    ensures
        r == match stored {
            Some(v) => match spec_parse_theme_style(v@) {
                Some(s) => s,
                None => ThemeStyle::Regular,
            },
            None => ThemeStyle::Regular,
        },
{
    match stored {
        Some(v) => match ThemeStyle::parse(v) {
            Some(s) => s,
            None => ThemeStyle::Regular,
        },
        None => ThemeStyle::Regular,
    }
}

/// The switches kept in the settings table, each with its key and the
/// value it has until the user changes it.
#[derive(Debug, Clone, Copy, PartialEq, Eq, Structural)]
pub enum BoolSetting {
    Notifications,
    NotificationSound,
    ReadReceipts,
    TypingIndicator,
    BackgroundWake,
    OfflineMesh,
}

pub open spec fn bool_setting_key(s: BoolSetting) -> Seq<char> {
    match s {
        BoolSetting::Notifications => "notifications_enabled"@,
        BoolSetting::NotificationSound => "notification_sound_enabled"@,
        BoolSetting::ReadReceipts => "read_receipts_enabled"@,
        BoolSetting::TypingIndicator => "typing_indicator_enabled"@,
        BoolSetting::BackgroundWake => "background_wake_enabled"@,
        BoolSetting::OfflineMesh => "offline_mesh_enabled"@,
    }
}

/// Notifications, sounds, read receipts and typing hints are on until
/// turned off; background wake and the offline mesh are opt-in.
pub open spec fn bool_setting_default(s: BoolSetting) -> bool {
    match s {
        BoolSetting::BackgroundWake | BoolSetting::OfflineMesh => false,
        _ => true,
    }
}

impl BoolSetting {
    /// The settings-table key.
    pub fn key(self) -> (r: &'static str)
        ensures
            r@ == bool_setting_key(self),
    {
        match self {
            BoolSetting::Notifications => "notifications_enabled",
            BoolSetting::NotificationSound => "notification_sound_enabled",
            BoolSetting::ReadReceipts => "read_receipts_enabled",
            BoolSetting::TypingIndicator => "typing_indicator_enabled",
            BoolSetting::BackgroundWake => "background_wake_enabled",
            BoolSetting::OfflineMesh => "offline_mesh_enabled",
        }
    }

    /// The value before the user sets one.
    pub fn default_value(self) -> (r: bool)
        ensures
            r == bool_setting_default(self),
    {
        match self {
            BoolSetting::BackgroundWake | BoolSetting::OfflineMesh => false,
            _ => true,
        }
    }

    /// The switch's value given what the table holds for its key: on for
    /// `1`, off for anything else, the default where nothing is stored.
    pub fn value_from(self, stored: Option<&str>) -> (r: bool)
        ensures
            r == match stored {
                Some(v) => v@ == "1"@,
                None => bool_setting_default(self),
            },
    {
        match stored {
            Some(v) => str_eq(v, "1"),
            None => self.default_value(),
        }
    }
}

/// How a switch is stored.
pub fn bool_setting_text(value: bool) -> (r: &'static str)
    ensures
        r@ == (if value {
            "1"@
        } else {
            "0"@
        }),
{
    if value {
        "1"
    } else {
        "0"
    }
}

/// A stored switch reads back as written, and a stored theme as set.
pub proof fn lemma_settings_roundtrip(s: BoolSetting, value: bool, m: ThemeMode, st: ThemeStyle)
    ensures
        (if value {
            "1"@
        } else {
            "0"@
        }) == "1"@ <==> value,
        spec_parse_theme_mode(theme_mode_name(m)) == Some(m),
        spec_parse_theme_style(theme_style_name(st)) == Some(st),
{
    reveal_strlit("1");
    reveal_strlit("0");
    assert("1"@[0] == '1');
    assert("0"@[0] == '0');
    lemma_stored_names_roundtrip(ContactState::Accepted, m, st, CallDirection::Incoming, CallOutcome::Completed);
}

/// How many registry peers are remembered.
pub const MAX_KNOWN_REGISTRY_PEERS: usize = 64;

/// The remembered registry peers after meeting `id`: it moves to the
/// front (without a second copy), and the list is capped, dropping the
/// least recently met.
pub open spec fn spec_remember_peer(peers: Seq<Seq<char>>, id: Seq<char>) -> Seq<Seq<char>> {
    let all = seq![id] + peers.filter(|p: Seq<char>| p != id);
    if all.len() > MAX_KNOWN_REGISTRY_PEERS {
        all.take(MAX_KNOWN_REGISTRY_PEERS as int)
    } else {
        all
    }
}

/// The characters of each string.
pub open spec fn views(v: Seq<String>) -> Seq<Seq<char>> {
    string_views(v)
}

/// Moves `endpoint_id` to the front of the remembered registry peers.
pub fn remember_registry_peer(peers: &Vec<String>, endpoint_id: &str) -> (r: Vec<String>)
    ensures
        views(r@) == spec_remember_peer(views(peers@), endpoint_id@),
{
    let ghost pv = views(peers@);
    let ghost pred = |p: Seq<char>| p != endpoint_id@;
    let mut out: Vec<String> = Vec::new();
    out.push(String::from_str(endpoint_id));
    let mut i: usize = 0;
    proof {
        assert(views(out@) =~= seq![endpoint_id@] + pv.take(0).filter(pred));
    }
    while i < peers.len()
        invariant
            i <= peers@.len(),
            pv == views(peers@),
            pred == (|p: Seq<char>| p != endpoint_id@),
            views(out@) == seq![endpoint_id@] + pv.take(i as int).filter(pred),
        decreases peers@.len() - i,
    {
        proof {
            assert(pv.take(i + 1) =~= pv.take(i as int).push(pv[i as int]));
            pv.take(i as int).lemma_filter_push(pv[i as int], pred);
            assert(pv[i as int] == peers@[i as int]@);
        }
        if !str_eq(peers[i].as_str(), endpoint_id) {
            let p = peers[i].clone();
            let ghost before = views(out@);
            out.push(p);
            proof {
                assert(views(out@) =~= before.push(pv[i as int]));
            }
        }
        i += 1;
    }
    proof {
        assert(pv.take(pv.len() as int) =~= pv);
    }
    if out.len() > MAX_KNOWN_REGISTRY_PEERS {
        let ghost before = views(out@);
        out.truncate(MAX_KNOWN_REGISTRY_PEERS);
        proof {
            assert(views(out@) =~= before.take(MAX_KNOWN_REGISTRY_PEERS as int));
        }
    }
    out
}

/// After meeting a peer it is first, appears once, and the list stays
/// within the cap.
pub proof fn lemma_remembered_peer_first(peers: Seq<Seq<char>>, id: Seq<char>)
    ensures
        spec_remember_peer(peers, id)[0] == id,
        spec_remember_peer(peers, id).len() <= MAX_KNOWN_REGISTRY_PEERS,
        forall|i: int| 1 <= i < spec_remember_peer(peers, id).len() ==> #[trigger] spec_remember_peer(peers, id)[i] != id,
{
    let pred = |p: Seq<char>| p != id;
    let f = peers.filter(pred);
    let all = seq![id] + f;
    assert forall|i: int| 1 <= i < all.len() implies #[trigger] all[i] != id by {
        assert(all[i] == f[i - 1]);
        peers.lemma_filter_pred(pred, i - 1);
    }
}

/// The remembered peers a stored setting lists: its comma-separated
/// pieces, empty pieces skipped; none where nothing is stored.
pub open spec fn spec_known_peers(stored: Option<Seq<char>>, pieces: Seq<Seq<char>>) -> Seq<Seq<char>> {
    match stored {
        None => Seq::empty(),
        Some(_) => pieces.filter(|p: Seq<char>| p.len() > 0),
    }
}

/// `pieces` are the comma-separated pieces of `s`.
pub open spec fn is_comma_split(s: Seq<char>, pieces: Seq<Seq<char>>) -> bool {
    &&& pieces.len() >= 1
    &&& join_commas(pieces) == s
    &&& forall|i: int, j: int| 0 <= i < pieces.len() && 0 <= j < pieces[i].len() ==> pieces[i][j] != ','
}

/// The registry peers remembered in the settings table.
pub fn known_registry_peers(stored: Option<&str>) -> (r: Vec<String>)
    ensures
        stored is None ==> r@.len() == 0,
        stored matches Some(s) ==> exists|pieces: Seq<Seq<char>>|
            is_comma_split(s@, pieces) && views(r@) == #[trigger] spec_known_peers(Some(s@), pieces),
{
    match stored {
        None => Vec::new(),
        Some(s) => {
            let pieces = split_commas(s);
            let ghost pv = views(pieces@);
            let ghost pred = |p: Seq<char>| p.len() > 0;
            let mut out: Vec<String> = Vec::new();
            let mut i: usize = 0;
            proof {
                assert(views(out@) =~= pv.take(0).filter(pred));
            }
            while i < pieces.len()
                invariant
                    i <= pieces@.len(),
                    pv == views(pieces@),
                    pred == (|p: Seq<char>| p.len() > 0),
                    views(out@) == pv.take(i as int).filter(pred),
                decreases pieces@.len() - i,
            {
                proof {
                    assert(pv.take(i + 1) =~= pv.take(i as int).push(pv[i as int]));
                    pv.take(i as int).lemma_filter_push(pv[i as int], pred);
                    assert(pv[i as int] == pieces@[i as int]@);
                }
                if !pieces[i].as_str().is_empty() {
                    let p = pieces[i].clone();
                    let ghost before = views(out@);
                    out.push(p);
                    proof {
                        assert(views(out@) =~= before.push(pv[i as int]));
                    }
                }
                i += 1;
            }
            proof {
                assert(pv.take(pv.len() as int) =~= pv);
                assert(is_comma_split(s@, pv));
                assert(views(out@) == spec_known_peers(Some(s@), pv));
            }
            out
        },
    }
}

/// The settings text for a list of remembered peers.
pub fn peers_setting_text(peers: &Vec<String>) -> (r: String)
    ensures
        r@ == join_commas(views(peers@)),
{
    join_with_commas(peers.as_slice())
}

/// No piece holds a comma.
pub open spec fn comma_free(ps: Seq<Seq<char>>) -> bool {
    forall|i: int, j: int| 0 <= i < ps.len() && 0 <= j < ps[i].len() ==> ps[i][j] != ','
}

proof fn lemma_join_len(ps: Seq<Seq<char>>)
    requires
        ps.len() >= 2,
    ensures
        join_commas(ps)[join_commas(ps.drop_last()).len() as int] == ',',
        join_commas(ps).skip(join_commas(ps.drop_last()).len() as int + 1) == ps.last(),
        join_commas(ps).take(join_commas(ps.drop_last()).len() as int) == join_commas(ps.drop_last()),
{
    let x = join_commas(ps.drop_last());
    assert(join_commas(ps) == x + seq![','] + ps.last());
    assert((x + seq![','] + ps.last()).skip(x.len() as int + 1) =~= ps.last());
    assert((x + seq![','] + ps.last()).take(x.len() as int) =~= x);
}

proof fn lemma_comma_free_drop_last(ps: Seq<Seq<char>>)
    requires
        comma_free(ps),
        ps.len() >= 1,
    ensures
        comma_free(ps.drop_last()),
{
    assert forall|i: int, j: int| 0 <= i < ps.drop_last().len() && 0 <= j < ps.drop_last()[i].len() implies ps.drop_last()[i][j]
        != ',' by {
        assert(ps.drop_last()[i] == ps[i]);
    }
}

/// Comma-free pieces are determined by their comma-joined text.
pub proof fn lemma_join_unique(a: Seq<Seq<char>>, b: Seq<Seq<char>>)
    requires
        a.len() >= 1,
        b.len() >= 1,
        comma_free(a),
        comma_free(b),
        join_commas(a) == join_commas(b),
    ensures
        a == b,
    decreases a.len() + b.len(),
{
    let j = join_commas(a);
    if a.len() == 1 && b.len() == 1 {
        assert(a =~= b);
    } else if a.len() == 1 {
        lemma_join_len(b);
        let k = join_commas(b.drop_last()).len() as int;
        assert(j == a[0]);
        assert(a[0][k] != ',');
    } else if b.len() == 1 {
        lemma_join_len(a);
        let k = join_commas(a.drop_last()).len() as int;
        assert(j == b[0]);
        assert(b[0][k] != ',');
    } else {
        lemma_join_len(a);
        lemma_join_len(b);
        let ka = join_commas(a.drop_last()).len() as int;
        let kb = join_commas(b.drop_last()).len() as int;
        if ka < kb {
            assert(j[kb] == ',');
            assert(j.skip(ka + 1)[kb - ka - 1] == j[kb]);
            assert(a.last()[kb - ka - 1] != ',');
        } else if kb < ka {
            assert(j[ka] == ',');
            assert(j.skip(kb + 1)[ka - kb - 1] == j[ka]);
            assert(b.last()[ka - kb - 1] != ',');
        }
        assert(ka == kb);
        lemma_comma_free_drop_last(a);
        lemma_comma_free_drop_last(b);
        lemma_join_unique(a.drop_last(), b.drop_last());
        assert(a =~= a.drop_last().push(a.last()));
        assert(b =~= b.drop_last().push(b.last()));
    }
}

/// Peers written with `peers_setting_text` read back with
/// `known_registry_peers`, when none is empty or holds a comma.
pub proof fn lemma_peers_roundtrip(ps: Seq<Seq<char>>, pieces: Seq<Seq<char>>)
    requires
        comma_free(ps),
        forall|i: int| 0 <= i < ps.len() ==> (#[trigger] ps[i]).len() > 0,
        is_comma_split(join_commas(ps), pieces),
    ensures
        spec_known_peers(Some(join_commas(ps)), pieces) == ps,
{
    let pred = |p: Seq<char>| p.len() > 0;
    if ps.len() == 0 {
        assert(join_commas(ps) == Seq::<char>::empty());
        if pieces.len() >= 2 {
            lemma_join_len(pieces);
        }
        assert(pieces.len() == 1);
        assert(pieces[0] == join_commas(pieces));
        reveal(Seq::filter);
        assert(pieces.drop_last() =~= Seq::<Seq<char>>::empty());
        assert(pieces.last() == pieces[0]);
        assert(pieces.last().len() == 0);
        assert(!pred(pieces.last()));
        assert(Seq::<Seq<char>>::empty().filter(pred) =~= Seq::<Seq<char>>::empty());
        assert(pieces.filter(pred) == pieces.drop_last().filter(pred));
        assert(pieces.filter(pred) =~= Seq::<Seq<char>>::empty());
    } else {
        lemma_join_unique(ps, pieces);
        lemma_filter_all(ps, pred);
    }
}

proof fn lemma_filter_all(ps: Seq<Seq<char>>, pred: spec_fn(Seq<char>) -> bool)
    requires
        forall|i: int| 0 <= i < ps.len() ==> pred(#[trigger] ps[i]),
    ensures
        ps.filter(pred) == ps,
    decreases ps.len(),
{
    reveal(Seq::filter);
    if ps.len() > 0 {
        lemma_filter_all(ps.drop_last(), pred);
        assert(ps.drop_last().push(ps.last()) =~= ps);
    }
}

} // verus!
