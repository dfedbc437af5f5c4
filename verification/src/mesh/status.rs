//! Live mesh status for the UI: which transports run, and how many
//! distinct peers were seen recently across all of them.
use vstd::prelude::*;
use crate::clock::{elapsed_ms, instant_now};
use crate::mesh::recent::{RecentIds, spec_touch};

verus! {

/// How long a peer identifier counts as recently seen (two minutes).
pub const PEER_WINDOW_MS: u64 = 120_000;

/// The decaying set of recently seen peer identifiers, timed from when it
/// was made.
pub struct PeerTracker {
    origin: std::time::Instant,
    ids: RecentIds,
}

impl View for PeerTracker {
    type V = Seq<(Seq<u8>, u64)>;

    closed spec fn view(&self) -> Seq<(Seq<u8>, u64)> {
        self.ids@
    }
}

impl PeerTracker {
    pub closed spec fn wf(&self) -> bool {
        self.ids.wf()
    }

    pub fn new() -> (r: Self)
        ensures
            r.wf(),
            r@ == Seq::<(Seq<u8>, u64)>::empty(),
    {
        PeerTracker { origin: instant_now(), ids: RecentIds::new() }
    }

    /// Milliseconds since the tracker was made.
    pub fn now_ms(&self) -> (r: u64) {
        elapsed_ms(&self.origin)
    }

    /// Records `id` at `now_ms`, dropping identifiers outside the window;
    /// returns how many remain.
    pub fn touch(&mut self, id: &[u8], now_ms: u64) -> (r: usize)
        requires
            old(self).wf(),
        ensures
            final(self).wf(),
            final(self)@ == spec_touch(old(self)@, id@, now_ms, PEER_WINDOW_MS),
            r == final(self)@.len(),
    {
        self.ids.touch(id, now_ms, PEER_WINDOW_MS);
        self.ids.len()
    }
}

/// Counts the UI reads, and the decaying set behind the peer count.
pub struct MeshStatus {
    pub lan_active: bool,
    pub ble_active: bool,
    pub peers_seen_recently: usize,
    pub envelopes_relayed: usize,
    pub recent_peer_ids: PeerTracker,
}

impl MeshStatus {
    /// The distinct identifiers seen within the window, with when.
    pub open spec fn recent_peers(&self) -> Seq<(Seq<u8>, u64)> {
        self.recent_peer_ids@
    }

    /// The published count matches the set behind it.
    pub open spec fn wf(&self) -> bool {
        &&& self.recent_peer_ids.wf()
        &&& self.peers_seen_recently == self.recent_peer_ids@.len()
    }

    /// Everything off and nothing seen.
    pub fn new() -> (r: Self)
        ensures
            r.wf(),
            !r.lan_active,
            !r.ble_active,
            r.peers_seen_recently == 0,
            r.envelopes_relayed == 0,
            r.recent_peers() == Seq::<(Seq<u8>, u64)>::empty(),
    {
        MeshStatus {
            lan_active: false,
            ble_active: false,
            peers_seen_recently: 0,
            envelopes_relayed: 0,
            recent_peer_ids: PeerTracker::new(),
        }
    }

    /// At `now_ms` (milliseconds since the status was made): records `id`
    /// as seen, forgets identifiers older than the window, and republishes
    /// the distinct count.
    pub fn note_peer_seen_at(&mut self, id: Vec<u8>, now_ms: u64)
        requires
            old(self).wf(),
        ensures
            final(self).wf(),
            final(self).recent_peers() == spec_touch(old(self).recent_peers(), id@, now_ms, PEER_WINDOW_MS),
            final(self).peers_seen_recently == final(self).recent_peers().len(),
            final(self).lan_active == old(self).lan_active,
            final(self).ble_active == old(self).ble_active,
            final(self).envelopes_relayed == old(self).envelopes_relayed,
    {
        self.peers_seen_recently = self.recent_peer_ids.touch(id.as_slice(), now_ms);
    }

    /// Records `id` (a LAN sender's endpoint id bytes or a BLE peer's
    /// address bytes) as seen now. Both transports share one tracker.
    pub fn note_peer_seen(&mut self, id: Vec<u8>)
        requires
            old(self).wf(),
        ensures
            final(self).wf(),
            exists|now: u64| final(self).recent_peers() == spec_touch(old(self).recent_peers(), id@, now, PEER_WINDOW_MS),
            final(self).peers_seen_recently == final(self).recent_peers().len(),
            final(self).lan_active == old(self).lan_active,
            final(self).ble_active == old(self).ble_active,
            final(self).envelopes_relayed == old(self).envelopes_relayed,
    {
        let now = self.recent_peer_ids.now_ms();
        self.note_peer_seen_at(id, now);
    }
}

impl Default for MeshStatus {
    fn default() -> (r: Self)
        ensures
            r.wf(),
            r.peers_seen_recently == 0,
            r.recent_peers() == Seq::<(Seq<u8>, u64)>::empty(),
    {
        MeshStatus::new()
    }
}

} // verus!
