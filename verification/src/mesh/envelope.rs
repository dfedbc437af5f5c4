//! The flooded mesh envelope, its wire form, and the dedup cache every
//! transport consults before re-broadcasting.
use vstd::prelude::*;
use crate::clock::{elapsed_ms, instant_now};
use crate::mesh::recent::{
    RecentIds, clock_never_back, has_key, is_fresh, lemma_touch_inv_empty, lemma_touch_step_inv, lemma_touch_window,
    seen_within, spec_touch, touch_inv,
};
use crate::random::{is_uuid_v4, random_uuid_v4};
use crate::util::{append_bytes, copy_bytes};
use crate::varint::{WireError, lemma_varint_roundtrip, push_varint, spec_take_varint, take_varint, varint};

verus! {

/// Hop budget of a freshly sent envelope: a same-building mesh, where
/// every extra hop multiplies flood traffic.
pub const DEFAULT_TTL: u8 = 6;

/// How long an envelope id stays in the dedup cache (five minutes).
pub const SEEN_TTL_MS: u64 = 300_000;

/// Bytes before the payload on the wire: id, ttl and sender.
pub const HEADER_LEN: usize = 49;

/// One flooded message.
#[derive(Debug, Clone)]
pub struct Envelope {
    /// Random per-message id, for flood dedup only.
    pub id: [u8; 16],
    /// Hops left.
    pub ttl: u8,
    /// The original sender's endpoint id bytes, kept through re-floods.
    pub sender: [u8; 32],
    /// An already-encoded message; the mesh never looks inside.
    pub payload: Vec<u8>,
}

/// An envelope as plain values.
pub struct EnvelopeView {
    pub id: Seq<u8>,
    pub ttl: u8,
    pub sender: Seq<u8>,
    pub payload: Seq<u8>,
}

impl View for Envelope {
    type V = EnvelopeView;

    open spec fn view(&self) -> EnvelopeView {
        EnvelopeView { id: self.id@, ttl: self.ttl, sender: self.sender@, payload: self.payload@ }
    }
}

/// The wire form (postcard's): the id's 16 bytes, the ttl byte, the
/// sender's 32 bytes, then the payload's length as a varint and its bytes.
pub open spec fn spec_encode(e: EnvelopeView) -> Seq<u8> {
    e.id + seq![e.ttl] + e.sender + varint(e.payload.len()) + e.payload
}

/// What bytes decode to; bytes after the payload are ignored.
pub open spec fn spec_decode(b: Seq<u8>) -> Result<EnvelopeView, WireError> {
    if b.len() < HEADER_LEN {
        Err(WireError::UnexpectedEnd)
    } else {
        match spec_take_varint(b.skip(HEADER_LEN as int)) {
            Err(e) => Err(e),
            Ok((len, k)) => if HEADER_LEN + k + len > b.len() {
                Err(WireError::UnexpectedEnd)
            } else {
                Ok(
                    EnvelopeView {
                        id: b.subrange(0, 16),
                        ttl: b[16],
                        sender: b.subrange(17, 49),
                        payload: b.subrange(HEADER_LEN + k, HEADER_LEN + k + len),
                    },
                )
            },
        }
    }
}

fn copy_16(b: &[u8]) -> (r: [u8; 16])
    requires
        b@.len() == 16,
    ensures
        r@ == b@,
{
    let mut out = [0u8; 16];
    let mut i: usize = 0;
    while i < 16
        invariant
            b@.len() == 16,
            i <= 16,
            forall|j: int| 0 <= j < i ==> out@[j] == b@[j],
        decreases 16 - i,
    {
        out[i] = b[i];
        i += 1;
    }
    proof {
        assert(out@ =~= b@);
    }
    out
}

fn copy_32(b: &[u8]) -> (r: [u8; 32])
    requires
        b@.len() == 32,
    ensures
        r@ == b@,
{
    let mut out = [0u8; 32];
    let mut i: usize = 0;
    while i < 32
        invariant
            b@.len() == 32,
            i <= 32,
            forall|j: int| 0 <= j < i ==> out@[j] == b@[j],
        decreases 32 - i,
    {
        out[i] = b[i];
        i += 1;
    }
    proof {
        assert(out@ =~= b@);
    }
    out
}

impl Envelope {
    /// A fresh envelope from `sender` with a random id and the default hop
    /// budget.
    pub fn new(sender: [u8; 32], payload: Vec<u8>) -> (r: Self)
        ensures
            is_uuid_v4(r.id@),
            r.ttl == DEFAULT_TTL,
            r.sender == sender,
            r.payload == payload,
    {
        Envelope { id: random_uuid_v4(), ttl: DEFAULT_TTL, sender, payload }
    }

    /// The next hop's copy with one hop less, or `None` once the budget is
    /// spent.
    pub fn decremented(&self) -> (r: Option<Self>)
        ensures
            self.ttl == 0 ==> r is None,
            self.ttl > 0 ==> (r matches Some(e) && e@ == (EnvelopeView { ttl: (self.ttl - 1) as u8, ..self@ })),
    {
        if self.ttl == 0 {
            return None;
        }
        Some(Envelope { id: self.id, ttl: self.ttl - 1, sender: self.sender, payload: copy_bytes(self.payload.as_slice()) })
    }

    /// The wire form, which decodes back to this envelope.
    pub fn encode(&self) -> (r: Vec<u8>)
        ensures
            r@ == spec_encode(self@),
            spec_decode(r@) == Ok::<EnvelopeView, WireError>(self@),
    {
        let mut out: Vec<u8> = copy_bytes(self.id.as_slice());
        out.push(self.ttl);
        append_bytes(&mut out, self.sender.as_slice());
        push_varint(&mut out, self.payload.len() as u64);
        append_bytes(&mut out, self.payload.as_slice());
        proof {
            let e = self@;
            let b = out@;
            let v = varint(e.payload.len());
            assert(b =~= e.id + seq![e.ttl] + e.sender + v + e.payload);
            assert(b.skip(HEADER_LEN as int) =~= v + e.payload);
            lemma_varint_roundtrip(e.payload.len() as u64, e.payload);
            assert(b.subrange(0, 16) =~= e.id);
            assert(b.subrange(17, 49) =~= e.sender);
            assert(b.subrange(HEADER_LEN + v.len(), HEADER_LEN + v.len() + e.payload.len()) =~= e.payload);
        }
        out
    }

    /// Reads an envelope from the front of `bytes`.
    pub fn decode(bytes: &[u8]) -> (r: Result<Self, WireError>)
        ensures
            match r {
                Ok(e) => spec_decode(bytes@) == Ok::<EnvelopeView, WireError>(e@),
                Err(err) => spec_decode(bytes@) == Err::<EnvelopeView, WireError>(err),
            },
    {
        if bytes.len() < HEADER_LEN {
            return Err(WireError::UnexpectedEnd);
        }
        let rest = bytes.split_at(HEADER_LEN).1;
        let (len, k) = match take_varint(rest) {
            Ok(p) => p,
            Err(e) => {
                return Err(e);
            },
        };
        let avail = rest.len() - k;
        if len > avail as u64 {
            return Err(WireError::UnexpectedEnd);
        }
        let start = HEADER_LEN + k;
        let end = start + len as usize;
        let id = copy_16(&bytes[0..16]);
        let sender = copy_32(&bytes[17..49]);
        let payload = copy_bytes(&bytes[start..end]);
        Ok(Envelope { id, ttl: bytes[16], sender, payload })
    }
}

/// Envelope ids already seen (received or sent from here), with when,
/// so a flood neither loops nor delivers twice.
pub struct SeenCache {
    origin: std::time::Instant,
    seen: RecentIds,
    marked_ids: Ghost<Seq<Seq<u8>>>,
    marked_times: Ghost<Seq<u64>>,
}

impl View for SeenCache {
    type V = Seq<(Seq<u8>, u64)>;

    closed spec fn view(&self) -> Seq<(Seq<u8>, u64)> {
        self.seen@
    }
}

impl SeenCache {
    /// Every id recorded so far, in call order.
    pub closed spec fn marked_ids(&self) -> Seq<Seq<u8>> {
        self.marked_ids@
    }

    /// When each of those ids was recorded, on the cache's clock.
    pub closed spec fn marked_times(&self) -> Seq<u64> {
        self.marked_times@
    }

    /// The cache's invariant: no id twice, one time per recorded id, and,
    /// as long as its clock has not gone back, exactly the ids recorded
    /// inside the window are remembered (`touch_inv`).
    pub closed spec fn wf(&self) -> bool {
        &&& self.seen.wf()
        &&& self.marked_ids@.len() == self.marked_times@.len()
        &&& clock_never_back(self.marked_times@) ==> touch_inv(self.marked_ids@, self.marked_times@, SEEN_TTL_MS, self@)
    }

    pub fn new() -> (r: Self)
        ensures
            r.wf(),
            r@ == Seq::<(Seq<u8>, u64)>::empty(),
            r.marked_ids() == Seq::<Seq<u8>>::empty(),
            r.marked_times() == Seq::<u64>::empty(),
    {
        proof {
            lemma_touch_inv_empty(SEEN_TTL_MS);
        }
        SeenCache { origin: instant_now(), seen: RecentIds::new(), marked_ids: Ghost(Seq::empty()), marked_times: Ghost(Seq::empty()) }
    }

    /// At `now_ms` (milliseconds since the cache was made): forgets ids
    /// older than the window, records `id`, and reports whether it was
    /// new. Where the clock has not gone back, it was new exactly when it
    /// was not recorded at some time inside the window before.
    pub fn prune_and_insert_at(&mut self, id: [u8; 16], now_ms: u64) -> (r: bool)
        requires
            old(self).wf(),
        ensures
            final(self).wf(),
            final(self)@ == spec_touch(old(self)@, id@, now_ms, SEEN_TTL_MS),
            r == !has_key(old(self)@.filter(is_fresh(now_ms, SEEN_TTL_MS)), id@),
            final(self).marked_ids() == old(self).marked_ids().push(id@),
            final(self).marked_times() == old(self).marked_times().push(now_ms),
            clock_never_back(final(self).marked_times()) ==> r == !seen_within(
                old(self).marked_ids(),
                old(self).marked_times(),
                id@,
                now_ms,
                SEEN_TTL_MS,
            ),
    {
        let ghost ids0 = self.marked_ids@;
        let ghost times0 = self.marked_times@;
        let ghost s0 = self@;
        let r = self.seen.touch(id.as_slice(), now_ms, SEEN_TTL_MS);
        proof {
            self.marked_ids@ = ids0.push(id@);
            self.marked_times@ = times0.push(now_ms);
            let times1 = times0.push(now_ms);
            if clock_never_back(times1) {
                assert forall|i: int, j: int| 0 <= i <= j < times0.len() implies #[trigger] times0[i] <= #[trigger] times0[j] by {
                    assert(times1[i] == times0[i] && times1[j] == times0[j]);
                }
                assert forall|k: int| 0 <= k < times0.len() implies #[trigger] times0[k] <= now_ms by {
                    assert(times1[k] == times0[k] && times1[times0.len() as int] == now_ms);
                }
                lemma_touch_step_inv(ids0, times0, SEEN_TTL_MS, s0, id@, now_ms);
                if times0.len() > 0 {
                    assert(times0.last() == times0[times0.len() - 1]);
                }
                lemma_touch_window(ids0, times0, SEEN_TTL_MS, s0, id@, now_ms);
            }
        }
        r
    }

    /// Records an id this node originates, so its own flood echo is never
    /// taken for a new message.
    pub fn mark(&mut self, id: [u8; 16])
        requires
            old(self).wf(),
        ensures
            final(self).wf(),
            final(self).marked_ids() == old(self).marked_ids().push(id@),
            exists|now: u64|
                final(self)@ == spec_touch(old(self)@, id@, now, SEEN_TTL_MS) && final(self).marked_times()
                    == old(self).marked_times().push(now),
    {
        let now = elapsed_ms(&self.origin);
        self.prune_and_insert_at(id, now);
    }

    /// Records an id and reports whether it was new; `false` means it was
    /// already relayed and is to be dropped. Where the clock has not gone
    /// back, it was new exactly when it was not recorded at some time
    /// inside the window before this call.
    pub fn mark_and_check_new(&mut self, id: [u8; 16]) -> (r: bool)
        requires
            old(self).wf(),
        ensures
            final(self).wf(),
            final(self).marked_ids() == old(self).marked_ids().push(id@),
            exists|now: u64|
                #[trigger] final(self).marked_times() == old(self).marked_times().push(now) && final(self)@ == spec_touch(
                    old(self)@,
                    id@,
                    now,
                    SEEN_TTL_MS,
                ) && r == !has_key(old(self)@.filter(is_fresh(now, SEEN_TTL_MS)), id@) && (clock_never_back(
                    final(self).marked_times(),
                ) ==> r == !seen_within(old(self).marked_ids(), old(self).marked_times(), id@, now, SEEN_TTL_MS)),
    {
        let now = elapsed_ms(&self.origin);
        self.prune_and_insert_at(id, now)
    }
}

/// Marking one id leaves every other id's answer alone: whether `other` was
/// recorded inside the window is the same with or without the new record.
pub proof fn lemma_mark_leaves_others(ids: Seq<Seq<u8>>, times: Seq<u64>, id: Seq<u8>, t: u64, other: Seq<u8>, now: u64)
    requires
        other != id,
        ids.len() == times.len(),
    ensures
        seen_within(ids.push(id), times.push(t), other, now, SEEN_TTL_MS) == seen_within(ids, times, other, now, SEEN_TTL_MS),
{
    let ids1 = ids.push(id);
    let times1 = times.push(t);
    if seen_within(ids1, times1, other, now, SEEN_TTL_MS) {
        let k = choose|k: int| 0 <= k < ids1.len() && #[trigger] ids1[k] == other && crate::mesh::recent::age(now, times1[k]) < SEEN_TTL_MS;
        assert(k < ids.len());
        assert(ids[k] == ids1[k] && times[k] == times1[k]);
    }
    if seen_within(ids, times, other, now, SEEN_TTL_MS) {
        let k = choose|k: int| 0 <= k < ids.len() && #[trigger] ids[k] == other && crate::mesh::recent::age(now, times[k]) < SEEN_TTL_MS;
        assert(ids1[k] == ids[k] && times1[k] == times[k]);
    }
}

/// What a node does with a flooded envelope it received.
pub enum FloodStep {
    /// Seen before: drop it.
    Duplicate,
    /// New: hand its payload up, and re-flood `reflood` where there is hop
    /// budget left.
    Deliver { reflood: Option<Envelope> },
}

/// Decides, at `now_ms` on the cache's clock, what to do with a received
/// envelope: duplicates are dropped; a new one is delivered and, with one
/// hop less, re-flooded while it has hops left.
pub fn accept_flood_at(seen: &mut SeenCache, env: &Envelope, now_ms: u64) -> (r: FloodStep)
    requires
        old(seen).wf(),
    ensures
        final(seen).wf(),
        final(seen)@ == spec_touch(old(seen)@, env.id@, now_ms, SEEN_TTL_MS),
        has_key(old(seen)@.filter(is_fresh(now_ms, SEEN_TTL_MS)), env.id@) <==> r is Duplicate,
        final(seen).marked_ids() == old(seen).marked_ids().push(env.id@),
        final(seen).marked_times() == old(seen).marked_times().push(now_ms),
        clock_never_back(final(seen).marked_times()) ==> (r is Duplicate <==> seen_within(
            old(seen).marked_ids(),
            old(seen).marked_times(),
            env.id@,
            now_ms,
            SEEN_TTL_MS,
        )),
        r matches FloodStep::Deliver { reflood } ==> (env.ttl == 0 <==> reflood is None) && (reflood matches Some(n)
            ==> n@ == (EnvelopeView { ttl: (env.ttl - 1) as u8, ..env@ })),
{
    if !seen.prune_and_insert_at(env.id, now_ms) {
        return FloodStep::Duplicate;
    }
    FloodStep::Deliver { reflood: env.decremented() }
}

/// `accept_flood_at` on the cache's own clock.
pub fn accept_flood(seen: &mut SeenCache, env: &Envelope) -> (r: FloodStep)
    requires
        old(seen).wf(),
    ensures
        final(seen).wf(),
        final(seen).marked_ids() == old(seen).marked_ids().push(env.id@),
        exists|now: u64|
            #[trigger] final(seen).marked_times() == old(seen).marked_times().push(now) && final(seen)@ == spec_touch(
                old(seen)@,
                env.id@,
                now,
                SEEN_TTL_MS,
            ) && (has_key(old(seen)@.filter(is_fresh(now, SEEN_TTL_MS)), env.id@) <==> r is Duplicate) && (
            clock_never_back(final(seen).marked_times()) ==> (r is Duplicate <==> seen_within(
                old(seen).marked_ids(),
                old(seen).marked_times(),
                env.id@,
                now,
                SEEN_TTL_MS,
            ))),
        r matches FloodStep::Deliver { reflood } ==> (env.ttl == 0 <==> reflood is None) && (reflood matches Some(n)
            ==> n@ == (EnvelopeView { ttl: (env.ttl - 1) as u8, ..env@ })),
{
    let now = elapsed_ms(&seen.origin);
    accept_flood_at(seen, env, now)
}

} // verus!
