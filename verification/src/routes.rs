//! Device-to-endpoint hints: which network endpoint each device last
//! disclosed as its own, when, and the reverse index from endpoint back to
//! device, kept in step by the same calls.
use vstd::prelude::*;
use crate::util::bytes_equal;

verus! {

/// A list of entries keyed by 32-byte ids, read as a map from the id's
/// bytes (a later entry for the same id would win, but the lists here
/// never hold one id twice).
pub open spec fn keyed_map<V>(s: Seq<([u8; 32], V)>) -> Map<Seq<u8>, V>
    decreases s.len(),
{
    if s.len() == 0 {
        Map::empty()
    } else {
        keyed_map(s.drop_last()).insert(s.last().0@, s.last().1)
    }
}

/// No id occurs twice.
pub open spec fn distinct_ids<V>(s: Seq<([u8; 32], V)>) -> bool {
    forall|i: int, j: int| 0 <= i < j < s.len() ==> (#[trigger] s[i]).0@ != (#[trigger] s[j]).0@
}

proof fn lemma_keyed_map<V>(s: Seq<([u8; 32], V)>)
    requires
        distinct_ids(s),
    ensures
        forall|k: Seq<u8>| #[trigger] keyed_map(s).contains_key(k) <==> exists|i: int| 0 <= i < s.len() && (#[trigger] s[i]).0@ == k,
        forall|i: int| 0 <= i < s.len() ==> #[trigger] keyed_map(s)[s[i].0@] == s[i].1,
    decreases s.len(),
{
    if s.len() > 0 {
        let t = s.drop_last();
        assert forall|i: int, j: int| 0 <= i < j < t.len() implies (#[trigger] t[i]).0@ != (#[trigger] t[j]).0@ by {
            assert(t[i] == s[i] && t[j] == s[j]);
        }
        lemma_keyed_map(t);
        assert(keyed_map(s) == keyed_map(t).insert(s.last().0@, s.last().1));
        assert forall|k: Seq<u8>| #[trigger] keyed_map(s).contains_key(k) <==> exists|i: int| 0 <= i < s.len() && (#[trigger] s[i]).0@ == k by {
            if keyed_map(s).contains_key(k) && k != s.last().0@ {
                assert(keyed_map(t).contains_key(k));
                let i = choose|i: int| 0 <= i < t.len() && (#[trigger] t[i]).0@ == k;
                assert(s[i] == t[i]);
            }
            if exists|i: int| 0 <= i < s.len() && (#[trigger] s[i]).0@ == k {
                let i = choose|i: int| 0 <= i < s.len() && (#[trigger] s[i]).0@ == k;
                if i < s.len() - 1 {
                    assert(t[i] == s[i]);
                }
            }
        }
        assert forall|i: int| 0 <= i < s.len() implies #[trigger] keyed_map(s)[s[i].0@] == s[i].1 by {
            if i < s.len() - 1 {
                assert(t[i] == s[i]);
                assert(s[i].0@ != s[s.len() - 1].0@);
            }
        }
    }
}

proof fn lemma_keyed_update<V>(s: Seq<([u8; 32], V)>, i: int, e: ([u8; 32], V))
    requires
        distinct_ids(s),
        0 <= i < s.len(),
        s[i].0@ == e.0@,
    ensures
        distinct_ids(s.update(i, e)),
        keyed_map(s.update(i, e)) == keyed_map(s).insert(e.0@, e.1),
{
    let u = s.update(i, e);
    assert forall|a: int, b: int| 0 <= a < b < u.len() implies (#[trigger] u[a]).0@ != (#[trigger] u[b]).0@ by {
        assert(s[a].0@ != s[b].0@);
    }
    lemma_keyed_map(s);
    lemma_keyed_map(u);
    assert forall|k: Seq<u8>| #[trigger] keyed_map(u).contains_key(k) <==> keyed_map(s).insert(e.0@, e.1).contains_key(k) by {
        if keyed_map(s).contains_key(k) {
            let j = choose|j: int| 0 <= j < s.len() && (#[trigger] s[j]).0@ == k;
            assert(u[j].0@ == k);
        }
        if keyed_map(u).contains_key(k) {
            let j = choose|j: int| 0 <= j < u.len() && (#[trigger] u[j]).0@ == k;
            assert(s[j].0@ == k);
        }
        assert(u[i].0@ == e.0@);
    }
    assert forall|k: Seq<u8>| #[trigger] keyed_map(u).contains_key(k) implies keyed_map(u)[k] == keyed_map(s).insert(e.0@, e.1)[k] by {
        let j = choose|j: int| 0 <= j < u.len() && (#[trigger] u[j]).0@ == k;
        assert(keyed_map(u)[u[j].0@] == u[j].1);
        if j != i {
            assert(keyed_map(s)[s[j].0@] == s[j].1);
        }
    }
    assert(keyed_map(u) =~= keyed_map(s).insert(e.0@, e.1));
}

proof fn lemma_keyed_remove<V>(s: Seq<([u8; 32], V)>, i: int)
    requires
        distinct_ids(s),
        0 <= i < s.len(),
    ensures
        distinct_ids(s.remove(i)),
        keyed_map(s.remove(i)) == keyed_map(s).remove(s[i].0@),
{
    let u = s.remove(i);
    assert forall|a: int, b: int| 0 <= a < b < u.len() implies (#[trigger] u[a]).0@ != (#[trigger] u[b]).0@ by {
        let a2 = if a < i { a } else { a + 1 };
        let b2 = if b < i { b } else { b + 1 };
        assert(u[a] == s[a2] && u[b] == s[b2]);
        assert(s[a2].0@ != s[b2].0@);
    }
    lemma_keyed_map(s);
    lemma_keyed_map(u);
    let m = keyed_map(s).remove(s[i].0@);
    assert forall|k: Seq<u8>| #[trigger] keyed_map(u).contains_key(k) <==> m.contains_key(k) by {
        if keyed_map(u).contains_key(k) {
            let j = choose|j: int| 0 <= j < u.len() && (#[trigger] u[j]).0@ == k;
            let j2 = if j < i { j } else { j + 1 };
            assert(u[j] == s[j2]);
            assert(s[j2].0@ != s[i].0@);
        }
        if m.contains_key(k) {
            let j = choose|j: int| 0 <= j < s.len() && (#[trigger] s[j]).0@ == k;
            assert(j != i);
            let j2 = if j < i { j } else { j - 1 };
            assert(u[j2] == s[j]);
        }
    }
    assert forall|k: Seq<u8>| #[trigger] keyed_map(u).contains_key(k) implies keyed_map(u)[k] == m[k] by {
        let j = choose|j: int| 0 <= j < u.len() && (#[trigger] u[j]).0@ == k;
        let j2 = if j < i { j } else { j + 1 };
        assert(u[j] == s[j2]);
        assert(keyed_map(u)[u[j].0@] == u[j].1);
        assert(keyed_map(s)[s[j2].0@] == s[j2].1);
    }
    assert(keyed_map(u) =~= m);
}

proof fn lemma_keyed_push<V>(s: Seq<([u8; 32], V)>, e: ([u8; 32], V))
    requires
        distinct_ids(s),
        !keyed_map(s).contains_key(e.0@),
    ensures
        distinct_ids(s.push(e)),
        keyed_map(s.push(e)) == keyed_map(s).insert(e.0@, e.1),
{
    lemma_keyed_map(s);
    let u = s.push(e);
    assert(u.drop_last() =~= s);
    assert forall|a: int, b: int| 0 <= a < b < u.len() implies (#[trigger] u[a]).0@ != (#[trigger] u[b]).0@ by {
        if b == s.len() {
            assert(u[a] == s[a]);
        } else {
            assert(u[a] == s[a] && u[b] == s[b]);
        }
    }
}

/// Where `id` sits in the list, if it is there.
fn find_id<V>(s: &Vec<([u8; 32], V)>, id: &[u8; 32]) -> (r: Option<usize>)
    requires
        distinct_ids(s@),
    ensures
        match r {
            Some(i) => i < s@.len() && s@[i as int].0@ == id@,
            None => !keyed_map(s@).contains_key(id@),
        },
{
    proof {
        lemma_keyed_map(s@);
    }
    let mut i: usize = 0;
    while i < s.len()
        invariant
            i <= s@.len(),
            forall|j: int| 0 <= j < i ==> (#[trigger] s@[j]).0@ != id@,
        decreases s@.len() - i,
    {
        if bytes_equal(s[i].0.as_slice(), id.as_slice()) {
            return Some(i);
        }
        i += 1;
    }
    None
}

/// Where a device last said it could be reached, and when.
#[derive(Debug, Clone, Copy)]
pub struct Hint {
    pub endpoint: [u8; 32],
    pub last_seen: u64,
}

/// The hints and the reverse index as maps over the ids' bytes.
pub struct RoutesView {
    pub hints: Map<Seq<u8>, Hint>,
    pub reverse: Map<Seq<u8>, [u8; 32]>,
}

/// A hint is stale once it is older than `max_age` at `now` (an age
/// that would be negative counts as zero).
pub open spec fn is_stale(h: Hint, now: u64, max_age: u64) -> bool {
    (if now >= h.last_seen { now - h.last_seen } else { 0 }) > max_age
}

/// What recording `device` at `endpoint` at `now` does: the device's hint
/// is replaced; where it had pointed at another endpoint, that endpoint's
/// reverse entry goes; then the endpoint points back at the device.
pub open spec fn spec_record(v: RoutesView, device: [u8; 32], endpoint: [u8; 32], now: u64) -> RoutesView {
    let cleared = if v.hints.contains_key(device@) && v.hints[device@].endpoint@ != endpoint@ {
        v.reverse.remove(v.hints[device@].endpoint@)
    } else {
        v.reverse
    };
    RoutesView {
        hints: v.hints.insert(device@, Hint { endpoint, last_seen: now }),
        reverse: cleared.insert(endpoint@, device),
    }
}

/// What dropping stale hints does: only fresh hints stay, and every
/// endpoint a stale hint named loses its reverse entry.
pub open spec fn spec_remove_stale(v: RoutesView, now: u64, max_age: u64) -> RoutesView {
    RoutesView {
        hints: v.hints.restrict(v.hints.dom().filter(|d: Seq<u8>| !is_stale(v.hints[d], now, max_age))),
        reverse: v.reverse.remove_keys(
            Set::new(|e: Seq<u8>| exists|d: Seq<u8>| #[trigger] v.hints.contains_key(d) && is_stale(v.hints[d], now, max_age) && v.hints[d].endpoint@ == e),
        ),
    }
}

/// Device-to-endpoint hints with their reverse index.
#[derive(Debug, Clone)]
pub struct DeviceRoutes {
    hints: Vec<([u8; 32], Hint)>,
    reverse: Vec<([u8; 32], [u8; 32])>,
}

impl View for DeviceRoutes {
    type V = RoutesView;

    closed spec fn view(&self) -> RoutesView {
        RoutesView { hints: keyed_map(self.hints@), reverse: keyed_map(self.reverse@) }
    }
}

impl DeviceRoutes {
    /// Neither list holds an id twice.
    pub closed spec fn wf(&self) -> bool {
        distinct_ids(self.hints@) && distinct_ids(self.reverse@)
    }

    pub fn new() -> (r: Self)
        ensures
            r.wf(),
            r@.hints == Map::<Seq<u8>, Hint>::empty(),
            r@.reverse == Map::<Seq<u8>, [u8; 32]>::empty(),
    {
        DeviceRoutes { hints: Vec::new(), reverse: Vec::new() }
    }

    fn reverse_remove(&mut self, endpoint: &[u8; 32])
        requires
            old(self).wf(),
        ensures
            final(self).wf(),
            final(self).hints@ == old(self).hints@,
            final(self)@.reverse == old(self)@.reverse.remove(endpoint@),
    {
        match find_id(&self.reverse, endpoint) {
            Some(i) => {
                proof {
                    lemma_keyed_remove(self.reverse@, i as int);
                }
                self.reverse.remove(i);
            },
            None => {
                proof {
                    assert(keyed_map(self.reverse@).remove(endpoint@) =~= keyed_map(self.reverse@));
                }
            },
        }
    }

    fn reverse_insert(&mut self, endpoint: [u8; 32], device: [u8; 32])
        requires
            old(self).wf(),
        ensures
            final(self).wf(),
            final(self).hints@ == old(self).hints@,
            final(self)@.reverse == old(self)@.reverse.insert(endpoint@, device),
    {
        match find_id(&self.reverse, &endpoint) {
            Some(i) => {
                proof {
                    lemma_keyed_update(self.reverse@, i as int, (endpoint, device));
                }
                self.reverse.set(i, (endpoint, device));
            },
            None => {
                proof {
                    lemma_keyed_push(self.reverse@, (endpoint, device));
                }
                self.reverse.push((endpoint, device));
            },
        }
    }

    /// Records or refreshes a device's disclosed endpoint, overwriting its
    /// previous hint, and keeps the reverse index in step.
    pub fn record(&mut self, device: [u8; 32], endpoint: [u8; 32], now: u64)
        requires
            old(self).wf(),
        ensures
            final(self).wf(),
            final(self)@ == spec_record(old(self)@, device, endpoint, now),
    {
        let ghost v = self@;
        let hint = Hint { endpoint, last_seen: now };
        let previous = match find_id(&self.hints, &device) {
            Some(i) => {
                let p = self.hints[i].1;
                proof {
                    lemma_keyed_map(self.hints@);
                    lemma_keyed_update(self.hints@, i as int, (device, hint));
                }
                self.hints.set(i, (device, hint));
                Some(p)
            },
            None => {
                proof {
                    lemma_keyed_push(self.hints@, (device, hint));
                }
                self.hints.push((device, hint));
                None
            },
        };
        assert(keyed_map(self.hints@) == v.hints.insert(device@, hint));
        assert(previous matches Some(p) ==> v.hints.contains_key(device@) && v.hints[device@] == p);
        assert(previous is None ==> !v.hints.contains_key(device@));
        if let Some(p) = previous {
            if !bytes_equal(p.endpoint.as_slice(), endpoint.as_slice()) {
                self.reverse_remove(&p.endpoint);
            }
        }
        self.reverse_insert(endpoint, device);
    }

    /// The endpoint a device last disclosed.
    pub fn get(&self, device: [u8; 32]) -> (r: Option<[u8; 32]>)
        requires
            self.wf(),
        ensures
            match r {
                Some(e) => self@.hints.contains_key(device@) && self@.hints[device@].endpoint == e,
                None => !self@.hints.contains_key(device@),
            },
    {
        proof {
            lemma_keyed_map(self.hints@);
        }
        match find_id(&self.hints, &device) {
            Some(i) => Some(self.hints[i].1.endpoint),
            None => None,
        }
    }

    /// The device that disclosed `endpoint` as its own, if any.
    pub fn device_for(&self, endpoint: [u8; 32]) -> (r: Option<[u8; 32]>)
        requires
            self.wf(),
        ensures
            match r {
                Some(d) => self@.reverse.contains_key(endpoint@) && self@.reverse[endpoint@] == d,
                None => !self@.reverse.contains_key(endpoint@),
            },
    {
        proof {
            lemma_keyed_map(self.reverse@);
        }
        match find_id(&self.reverse, &endpoint) {
            Some(i) => Some(self.reverse[i].1),
            None => None,
        }
    }

    /// Drops every hint older than `max_age` at `now`, and the reverse
    /// entries of the endpoints they named.
    pub fn remove_stale(&mut self, now: u64, max_age: u64)
        requires
            old(self).wf(),
        ensures
            final(self).wf(),
            final(self)@ == spec_remove_stale(old(self)@, now, max_age),
    {
        let ghost v = self@;
        let ghost hs = self.hints@;
        let ghost rev0 = keyed_map(self.reverse@);
        proof {
            lemma_keyed_map(hs);
        }
        let mut old_hints: Vec<([u8; 32], Hint)> = Vec::new();
        std::mem::swap(&mut old_hints, &mut self.hints);
        proof {
            assert(keyed_map(self.hints@) =~= Map::<Seq<u8>, Hint>::empty());
        }
        let n = old_hints.len();
        let mut i: usize = 0;
        while i < n
            invariant
                old_hints@ == hs,
                n == hs.len(),
                distinct_ids(hs),
                i <= n,
                self.wf(),
                forall|k: Seq<u8>| #[trigger] keyed_map(self.hints@).contains_key(k) <==> exists|j: int|
                    0 <= j < i && (#[trigger] hs[j]).0@ == k && !is_stale(hs[j].1, now, max_age),
                forall|j: int| 0 <= j < i && !is_stale((#[trigger] hs[j]).1, now, max_age) ==> keyed_map(self.hints@)[hs[j].0@] == hs[j].1,
                keyed_map(self.reverse@) == rev0.remove_keys(
                    Set::new(|e: Seq<u8>| exists|j: int| 0 <= j < i && is_stale((#[trigger] hs[j]).1, now, max_age) && hs[j].1.endpoint@ == e),
                ),
            decreases n - i,
        {
            let entry = old_hints[i];
            let age = if now >= entry.1.last_seen {
                now - entry.1.last_seen
            } else {
                0
            };
            let ghost before_hints = self.hints@;
            let ghost before_rev = keyed_map(self.reverse@);
            if age <= max_age {
                proof {
                    if keyed_map(self.hints@).contains_key(entry.0@) {
                        let j = choose|j: int| 0 <= j < i && (#[trigger] hs[j]).0@ == entry.0@ && !is_stale(hs[j].1, now, max_age);
                        assert(hs[j].0@ != hs[i as int].0@);
                    }
                    lemma_keyed_push(self.hints@, entry);
                    lemma_keyed_map(self.hints@.push(entry));
                }
                self.hints.push(entry);
                proof {
                    assert forall|k: Seq<u8>| #[trigger] keyed_map(self.hints@).contains_key(k) <==> exists|j: int|
                        0 <= j < i + 1 && (#[trigger] hs[j]).0@ == k && !is_stale(hs[j].1, now, max_age) by {
                        if k != entry.0@ {
                            assert(keyed_map(self.hints@).contains_key(k) == keyed_map(before_hints).contains_key(k));
                        } else {
                            assert(hs[i as int].0@ == k);
                        }
                    }
                    assert forall|j: int| 0 <= j < i + 1 && !is_stale((#[trigger] hs[j]).1, now, max_age) implies keyed_map(self.hints@)[hs[j].0@] == hs[j].1 by {
                        if j < i {
                            assert(hs[j].0@ != hs[i as int].0@);
                        }
                    }
                    assert(Set::new(|e: Seq<u8>| exists|j: int| 0 <= j < i + 1 && is_stale((#[trigger] hs[j]).1, now, max_age) && hs[j].1.endpoint@ == e)
                        =~= Set::new(|e: Seq<u8>| exists|j: int| 0 <= j < i && is_stale((#[trigger] hs[j]).1, now, max_age) && hs[j].1.endpoint@ == e));
                }
            } else {
                self.reverse_remove(&entry.1.endpoint);
                proof {
                    let s_old = Set::new(|e: Seq<u8>| exists|j: int| 0 <= j < i && is_stale((#[trigger] hs[j]).1, now, max_age) && hs[j].1.endpoint@ == e);
                    let s_new = Set::new(|e: Seq<u8>| exists|j: int| 0 <= j < i + 1 && is_stale((#[trigger] hs[j]).1, now, max_age) && hs[j].1.endpoint@ == e);
                    assert(s_new =~= s_old.insert(entry.1.endpoint@)) by {
                        assert(is_stale(hs[i as int].1, now, max_age) && hs[i as int].1.endpoint@ == entry.1.endpoint@);
                    }
                    assert(rev0.remove_keys(s_old).remove(entry.1.endpoint@) =~= rev0.remove_keys(s_new));
                    assert forall|k: Seq<u8>| #[trigger] keyed_map(self.hints@).contains_key(k) <==> exists|j: int|
                        0 <= j < i + 1 && (#[trigger] hs[j]).0@ == k && !is_stale(hs[j].1, now, max_age) by {
                        if exists|j: int| 0 <= j < i + 1 && (#[trigger] hs[j]).0@ == k && !is_stale(hs[j].1, now, max_age) {
                            let j = choose|j: int| 0 <= j < i + 1 && (#[trigger] hs[j]).0@ == k && !is_stale(hs[j].1, now, max_age);
                            assert(j != i);
                        }
                    }
                }
            }
            i += 1;
        }
        proof {
            let stale_set = Set::new(|e: Seq<u8>| exists|d: Seq<u8>| #[trigger] v.hints.contains_key(d) && is_stale(v.hints[d], now, max_age) && v.hints[d].endpoint@ == e);
            let loop_set = Set::new(|e: Seq<u8>| exists|j: int| 0 <= j < n && is_stale((#[trigger] hs[j]).1, now, max_age) && hs[j].1.endpoint@ == e);
            assert(stale_set =~= loop_set) by {
                assert forall|e: Seq<u8>| stale_set.contains(e) implies loop_set.contains(e) by {
                    let d = choose|d: Seq<u8>| #[trigger] v.hints.contains_key(d) && is_stale(v.hints[d], now, max_age) && v.hints[d].endpoint@ == e;
                    let j = choose|j: int| 0 <= j < hs.len() && (#[trigger] hs[j]).0@ == d;
                    assert(v.hints[hs[j].0@] == hs[j].1);
                }
                assert forall|e: Seq<u8>| loop_set.contains(e) implies stale_set.contains(e) by {
                    let j = choose|j: int| 0 <= j < n && is_stale((#[trigger] hs[j]).1, now, max_age) && hs[j].1.endpoint@ == e;
                    assert(v.hints[hs[j].0@] == hs[j].1);
                    assert(v.hints.contains_key(hs[j].0@));
                }
            }
            let fresh = v.hints.restrict(v.hints.dom().filter(|d: Seq<u8>| !is_stale(v.hints[d], now, max_age)));
            assert(keyed_map(self.hints@) =~= fresh) by {
                assert forall|k: Seq<u8>| #[trigger] keyed_map(self.hints@).contains_key(k) <==> fresh.contains_key(k) by {
                    if fresh.contains_key(k) {
                        let j = choose|j: int| 0 <= j < hs.len() && (#[trigger] hs[j]).0@ == k;
                        assert(v.hints[hs[j].0@] == hs[j].1);
                    }
                    if keyed_map(self.hints@).contains_key(k) {
                        let j = choose|j: int| 0 <= j < n && (#[trigger] hs[j]).0@ == k && !is_stale(hs[j].1, now, max_age);
                        assert(v.hints[hs[j].0@] == hs[j].1);
                    }
                }
                assert forall|k: Seq<u8>| #[trigger] keyed_map(self.hints@).contains_key(k) implies keyed_map(self.hints@)[k] == fresh[k] by {
                    let j = choose|j: int| 0 <= j < n && (#[trigger] hs[j]).0@ == k && !is_stale(hs[j].1, now, max_age);
                    assert(v.hints[hs[j].0@] == hs[j].1);
                }
            }
        }
    }
}

impl Default for DeviceRoutes {
    fn default() -> (r: Self)
        ensures
            r.wf(),
            r@.hints == Map::<Seq<u8>, Hint>::empty(),
            r@.reverse == Map::<Seq<u8>, [u8; 32]>::empty(),
    {
        Self::new()
    }
}

} // verus!
