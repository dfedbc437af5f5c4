//! A set of identifiers with the time each was last seen, pruned to a
//! window on every touch.
use vstd::prelude::*;
use crate::util::{bytes_equal, copy_bytes};

verus! {

broadcast use vstd::seq_lib::group_seq_properties;

/// How long ago `t` was at time `now` (zero for a time not in the past).
pub open spec fn age(now: u64, t: u64) -> int {
    if now >= t {
        now - t
    } else {
        0
    }
}

/// An entry is still inside the window.
pub open spec fn is_fresh(now: u64, window: u64) -> spec_fn((Seq<u8>, u64)) -> bool {
    |e: (Seq<u8>, u64)| age(now, e.1) < window
}

/// No identifier occurs twice.
pub open spec fn distinct_keys(s: Seq<(Seq<u8>, u64)>) -> bool {
    forall|i: int, j: int| 0 <= i < j < s.len() ==> (#[trigger] s[i]).0 != (#[trigger] s[j]).0
}

/// Whether `id` has an entry.
pub open spec fn has_key(s: Seq<(Seq<u8>, u64)>, id: Seq<u8>) -> bool {
    exists|i: int| 0 <= i < s.len() && (#[trigger] s[i]).0 == id
}

/// Where `id`'s entry is, when it has one.
pub open spec fn key_index(s: Seq<(Seq<u8>, u64)>, id: Seq<u8>) -> int {
    choose|i: int| 0 <= i < s.len() && (#[trigger] s[i]).0 == id
}

/// A touch at `now`: entries outside the window are dropped, then `id` is
/// stamped `now`, in place if it is still there, else at the end.
pub open spec fn spec_touch(s: Seq<(Seq<u8>, u64)>, id: Seq<u8>, now: u64, window: u64) -> Seq<(Seq<u8>, u64)> {
    let kept = s.filter(is_fresh(now, window));
    if has_key(kept, id) {
        kept.update(key_index(kept, id), (id, now))
    } else {
        kept.push((id, now))
    }
}

/// An identifier touched at `t1` is still there at any later `t2` inside
/// the window, so touching it again then reports it as already seen.
pub proof fn lemma_seen_within_window(s: Seq<(Seq<u8>, u64)>, id: Seq<u8>, t1: u64, t2: u64, window: u64)
    requires
        t1 <= t2,
        t2 - t1 < window,
    ensures
        has_key(spec_touch(s, id, t1, window).filter(is_fresh(t2, window)), id),
{
    let after = spec_touch(s, id, t1, window);
    let kept = s.filter(is_fresh(t1, window));
    let k: int = if has_key(kept, id) {
        let i = key_index(kept, id);
        assert(after == kept.update(i, (id, t1)));
        i
    } else {
        assert(after == kept.push((id, t1)));
        kept.len() as int
    };
    assert(0 <= k < after.len());
    assert(after[k] == (id, t1));
    assert(is_fresh(t2, window)(after[k]));
    after.lemma_filter_contains(is_fresh(t2, window), k);
    let f = after.filter(is_fresh(t2, window));
    let j = choose|j: int| 0 <= j < f.len() && f[j] == after[k];
    assert(f[j].0 == id);
}

proof fn lemma_touch_contents(s: Seq<(Seq<u8>, u64)>, id: Seq<u8>, now: u64, window: u64)
    ensures
        spec_touch(s, id, now, window).contains((id, now)),
        forall|e: (Seq<u8>, u64)| #[trigger] spec_touch(s, id, now, window).contains(e) ==> e == (id, now) || (
        s.contains(e) && is_fresh(now, window)(e)),
        forall|e: (Seq<u8>, u64)| s.contains(e) && is_fresh(now, window)(e) && e.0 != id ==> #[trigger] spec_touch(
            s,
            id,
            now,
            window,
        ).contains(e),
{
    let pred = is_fresh(now, window);
    let kept = s.filter(pred);
    let after = spec_touch(s, id, now, window);
    if has_key(kept, id) {
        let x = key_index(kept, id);
        assert(after == kept.update(x, (id, now)));
        assert(after[x] == (id, now));
        assert forall|e: (Seq<u8>, u64)| #[trigger] after.contains(e) implies e == (id, now) || (s.contains(e) && pred(e)) by {
            let j = choose|j: int| 0 <= j < after.len() && after[j] == e;
            if j != x {
                assert(kept[j] == e);
                s.lemma_filter_pred(pred, j);
                assert(kept.contains(e));
                s.lemma_filter_contains_rev(pred, e);
            }
        }
        assert forall|e: (Seq<u8>, u64)| s.contains(e) && pred(e) && e.0 != id implies #[trigger] after.contains(e) by {
            let i = choose|i: int| 0 <= i < s.len() && s[i] == e;
            s.lemma_filter_contains(pred, i);
            let j = choose|j: int| 0 <= j < kept.len() && kept[j] == e;
            assert(j != x);
            assert(after[j] == e);
        }
    } else {
        assert(after == kept.push((id, now)));
        assert(after[kept.len() as int] == (id, now));
        assert forall|e: (Seq<u8>, u64)| #[trigger] after.contains(e) implies e == (id, now) || (s.contains(e) && pred(e)) by {
            let j = choose|j: int| 0 <= j < after.len() && after[j] == e;
            if j < kept.len() {
                assert(kept[j] == e);
                s.lemma_filter_pred(pred, j);
                assert(kept.contains(e));
                s.lemma_filter_contains_rev(pred, e);
            }
        }
        assert forall|e: (Seq<u8>, u64)| s.contains(e) && pred(e) && e.0 != id implies #[trigger] after.contains(e) by {
            let i = choose|i: int| 0 <= i < s.len() && s[i] == e;
            s.lemma_filter_contains(pred, i);
            let j = choose|j: int| 0 <= j < kept.len() && kept[j] == e;
            assert(after[j] == e);
        }
    }
}

/// The touch times never go back.
pub open spec fn clock_never_back(times: Seq<u64>) -> bool {
    forall|i: int, j: int| 0 <= i <= j < times.len() ==> #[trigger] times[i] <= #[trigger] times[j]
}

/// Whether `id` was touched at some time inside the window before `now`.
pub open spec fn seen_within(ids: Seq<Seq<u8>>, times: Seq<u64>, id: Seq<u8>, now: u64, window: u64) -> bool {
    exists|k: int| 0 <= k < ids.len() && #[trigger] ids[k] == id && age(now, times[k]) < window
}

/// What the record holds after touches `ids` at `times`: only ids with the
/// time of one of their touches, and every id touched inside the window
/// before the last touch, stamped no earlier than that touch.
pub open spec fn touch_inv(ids: Seq<Seq<u8>>, times: Seq<u64>, window: u64, s: Seq<(Seq<u8>, u64)>) -> bool {
    &&& forall|e: (Seq<u8>, u64)| #[trigger] s.contains(e) ==> exists|k: int|
        0 <= k < ids.len() && #[trigger] ids[k] == e.0 && times[k] == e.1
    &&& ids.len() > 0 ==> forall|k: int| 0 <= k < ids.len() && age(times.last(), times[k]) < window ==> exists|t: u64|
        #[trigger] s.contains((ids[k], t)) && t >= times[k]
}

proof fn lemma_touch_step_sources(ids: Seq<Seq<u8>>, times: Seq<u64>, window: u64, before: Seq<(Seq<u8>, u64)>, id: Seq<u8>, t: u64)
    requires
        ids.len() == times.len(),
        forall|e: (Seq<u8>, u64)| #[trigger] before.contains(e) ==> exists|k: int|
            0 <= k < ids.len() && #[trigger] ids[k] == e.0 && times[k] == e.1,
    ensures
        forall|e: (Seq<u8>, u64)| #[trigger] spec_touch(before, id, t, window).contains(e) ==> exists|k: int|
            0 <= k < ids.len() + 1 && #[trigger] ids.push(id)[k] == e.0 && times.push(t)[k] == e.1,
{
    let after = spec_touch(before, id, t, window);
    let ids1 = ids.push(id);
    let times1 = times.push(t);
    let n = ids.len() as int;
    lemma_touch_contents(before, id, t, window);
    assert(ids1[n] == id && times1[n] == t);
    assert forall|e: (Seq<u8>, u64)| #[trigger] after.contains(e) implies exists|k: int|
        0 <= k < ids.len() + 1 && #[trigger] ids1[k] == e.0 && times1[k] == e.1 by {
        if e != (id, t) {
            assert(before.contains(e));
            let k = choose|k: int| 0 <= k < ids.len() && #[trigger] ids[k] == e.0 && times[k] == e.1;
            assert(ids1[k] == ids[k] && times1[k] == times[k]);
        }
    }
}

proof fn lemma_touch_step_fresh(ids: Seq<Seq<u8>>, times: Seq<u64>, window: u64, before: Seq<(Seq<u8>, u64)>, id: Seq<u8>, t: u64, k: int)
    requires
        ids.len() == times.len(),
        touch_inv(ids, times, window, before),
        forall|j: int| 0 <= j < times.len() ==> #[trigger] times[j] <= t,
        0 <= k < ids.len(),
        ids[k] != id,
        age(t, times[k]) < window,
    ensures
        spec_touch(before, id, t, window).contains((ids[k], choose|t2: u64| #[trigger] before.contains((ids[k], t2)) && t2 >= times[k])),
        (choose|t2: u64| #[trigger] before.contains((ids[k], t2)) && t2 >= times[k]) >= times[k],
{
    let n = ids.len() as int;
    assert(times.last() == times[n - 1]);
    assert(times[n - 1] <= t);
    assert(age(times.last(), times[k]) < window);
    let t1 = choose|t1: u64| #[trigger] before.contains((ids[k], t1)) && t1 >= times[k];
    let j = choose|j: int| 0 <= j < ids.len() && #[trigger] ids[j] == ids[k] && times[j] == t1;
    assert(times[j] <= t);
    assert(is_fresh(t, window)((ids[k], t1)));
    lemma_touch_contents(before, id, t, window);
}

/// A touch keeps the record's invariant, with the touch added to the
/// history, when the clock has not gone back.
pub proof fn lemma_touch_step_inv(ids: Seq<Seq<u8>>, times: Seq<u64>, window: u64, before: Seq<(Seq<u8>, u64)>, id: Seq<u8>, t: u64)
    requires
        ids.len() == times.len(),
        touch_inv(ids, times, window, before),
        forall|k: int| 0 <= k < times.len() ==> #[trigger] times[k] <= t,
    ensures
        touch_inv(ids.push(id), times.push(t), window, spec_touch(before, id, t, window)),
{
    let after = spec_touch(before, id, t, window);
    let ids1 = ids.push(id);
    let times1 = times.push(t);
    let n = ids.len() as int;
    lemma_touch_step_sources(ids, times, window, before, id, t);
    lemma_touch_contents(before, id, t, window);
    assert(times1.last() == t);
    assert forall|k: int| 0 <= k < ids1.len() && age(t, times1[k]) < window implies exists|t2: u64|
        #[trigger] after.contains((ids1[k], t2)) && t2 >= times1[k] by {
        if k == n || ids1[k] == id {
            if k < n {
                assert(times1[k] == times[k]);
                assert(times[k] <= t);
            }
            assert(ids1[k] == id);
            assert(after.contains((ids1[k], t)));
        } else {
            assert(ids1[k] == ids[k] && times1[k] == times[k]);
            lemma_touch_step_fresh(ids, times, window, before, id, t, k);
            let t2 = choose|t2: u64| #[trigger] before.contains((ids[k], t2)) && t2 >= times[k];
            assert(after.contains((ids1[k], t2)) && t2 >= times1[k]);
        }
    }
}

/// An empty record with no touches keeps the invariant.
pub proof fn lemma_touch_inv_empty(window: u64)
    ensures
        touch_inv(Seq::empty(), Seq::empty(), window, Seq::empty()),
{
}

/// Given the invariant and a clock that never went back, at any `now` not
/// before the last touch: an id is still recorded inside the window
/// exactly when it was touched at some time inside the window. So a touch
/// reports an id as new exactly when it was not touched within the window
/// before.
pub proof fn lemma_touch_window(ids: Seq<Seq<u8>>, times: Seq<u64>, window: u64, s: Seq<(Seq<u8>, u64)>, id: Seq<u8>, now: u64)
    requires
        ids.len() == times.len(),
        touch_inv(ids, times, window, s),
        clock_never_back(times),
        ids.len() > 0 ==> times.last() <= now,
    ensures
        has_key(s.filter(is_fresh(now, window)), id) <==> seen_within(ids, times, id, now, window),
{
    let pred = is_fresh(now, window);
    let f = s.filter(pred);
    if has_key(f, id) {
        let i = choose|i: int| 0 <= i < f.len() && (#[trigger] f[i]).0 == id;
        s.lemma_filter_pred(pred, i);
        assert(f.contains(f[i]));
        s.lemma_filter_contains_rev(pred, f[i]);
        let k = choose|k: int| 0 <= k < ids.len() && #[trigger] ids[k] == f[i].0 && times[k] == f[i].1;
        assert(ids[k] == id && age(now, times[k]) < window);
    }
    if seen_within(ids, times, id, now, window) {
        let k = choose|k: int| 0 <= k < ids.len() && #[trigger] ids[k] == id && age(now, times[k]) < window;
        assert(times[k] <= times.last() && times.last() <= now) by {
            assert(times.last() == times[times.len() - 1]);
        }
        let t = choose|t: u64| #[trigger] s.contains((ids[k], t)) && t >= times[k];
        let j = choose|j: int| 0 <= j < ids.len() && #[trigger] ids[j] == ids[k] && times[j] == t;
        assert(times[j] <= times.last()) by {
            assert(times.last() == times[times.len() - 1]);
        }
        let x = choose|x: int| 0 <= x < s.len() && s[x] == (ids[k], t);
        s.lemma_filter_contains(pred, x);
        let y = choose|y: int| 0 <= y < f.len() && f[y] == (ids[k], t);
        assert(f[y].0 == id);
    }
}

/// Touching one id at `t` leaves every other id's answer at any later
/// `now` as it was.
pub proof fn lemma_touch_leaves_others(s: Seq<(Seq<u8>, u64)>, id: Seq<u8>, t: u64, window: u64, other: Seq<u8>, now: u64)
    requires
        other != id,
        t <= now,
    ensures
        has_key(spec_touch(s, id, t, window).filter(is_fresh(now, window)), other) == has_key(
            s.filter(is_fresh(now, window)),
            other,
        ),
{
    let after = spec_touch(s, id, t, window);
    let pn = is_fresh(now, window);
    lemma_touch_contents(s, id, t, window);
    let fa = after.filter(pn);
    let fs = s.filter(pn);
    if has_key(fa, other) {
        let i = choose|i: int| 0 <= i < fa.len() && (#[trigger] fa[i]).0 == other;
        after.lemma_filter_pred(pn, i);
        assert(fa.contains(fa[i]));
        after.lemma_filter_contains_rev(pn, fa[i]);
        let e = fa[i];
        assert(e != (id, t));
        assert(s.contains(e));
        let x = choose|x: int| 0 <= x < s.len() && s[x] == e;
        s.lemma_filter_contains(pn, x);
        let y = choose|y: int| 0 <= y < fs.len() && fs[y] == e;
        assert(fs[y].0 == other);
    }
    if has_key(fs, other) {
        let i = choose|i: int| 0 <= i < fs.len() && (#[trigger] fs[i]).0 == other;
        s.lemma_filter_pred(pn, i);
        assert(fs.contains(fs[i]));
        s.lemma_filter_contains_rev(pn, fs[i]);
        let e = fs[i];
        assert(is_fresh(t, window)(e));
        assert(after.contains(e));
        let x = choose|x: int| 0 <= x < after.len() && after[x] == e;
        after.lemma_filter_contains(pn, x);
        let y = choose|y: int| 0 <= y < fa.len() && fa[y] == e;
        assert(fa[y].0 == other);
    }
}

/// Identifiers and when each was last seen, in first-seen order.
#[derive(Debug, Clone)]
pub struct RecentIds {
    entries: Vec<(Vec<u8>, u64)>,
}

impl View for RecentIds {
    type V = Seq<(Seq<u8>, u64)>;

    closed spec fn view(&self) -> Seq<(Seq<u8>, u64)> {
        self.entries@.map_values(|e: (Vec<u8>, u64)| (e.0@, e.1))
    }
}

impl RecentIds {
    pub open spec fn wf(&self) -> bool {
        distinct_keys(self@)
    }

    pub fn new() -> (r: Self)
        ensures
            r.wf(),
            r@ == Seq::<(Seq<u8>, u64)>::empty(),
    {
        let r = RecentIds { entries: Vec::new() };
        proof {
            assert(r@ =~= Seq::<(Seq<u8>, u64)>::empty());
        }
        r
    }

    pub fn len(&self) -> (r: usize)
        ensures
            r == self@.len(),
    {
        self.entries.len()
    }

    /// Drops entries older than `window` at time `now`, then records `id`
    /// as seen at `now`. Returns whether `id` was absent after the drop.
    pub fn touch(&mut self, id: &[u8], now: u64, window: u64) -> (r: bool)
        requires
            old(self).wf(),
        ensures
            final(self).wf(),
            final(self)@ == spec_touch(old(self)@, id@, now, window),
            r == !has_key(old(self)@.filter(is_fresh(now, window)), id@),
    {
        let ghost s = self@;
        let ghost pred = is_fresh(now, window);
        let n = self.entries.len();
        let mut kept: Vec<(Vec<u8>, u64)> = Vec::new();
        let mut i: usize = 0;
        while i < n
            invariant
                n == self.entries@.len(),
                s == self@,
                distinct_keys(s),
                pred == is_fresh(now, window),
                i <= n,
                kept@.map_values(|e: (Vec<u8>, u64)| (e.0@, e.1)) == s.take(i as int).filter(pred),
                forall|k: int| 0 <= k < kept@.len() ==> exists|j: int| 0 <= j < i && (#[trigger] kept@[k]).0@ == s[j].0,
                distinct_keys(kept@.map_values(|e: (Vec<u8>, u64)| (e.0@, e.1))),
            decreases n - i,
        {
            let t = self.entries[i].1;
            proof {
                assert(s.take(i + 1) =~= s.take(i as int).push(s[i as int]));
                s.take(i as int).lemma_filter_push(s[i as int], pred);
                assert(s[i as int] == (self.entries@[i as int].0@, t));
            }
            let fresh = if now >= t {
                now - t < window
            } else {
                0 < window
            };
            if fresh {
                let key = copy_bytes(self.entries[i].0.as_slice());
                let ghost before = kept@;
                kept.push((key, t));
                proof {
                    let kv = kept@.map_values(|e: (Vec<u8>, u64)| (e.0@, e.1));
                    let bv = before.map_values(|e: (Vec<u8>, u64)| (e.0@, e.1));
                    assert(kv =~= bv.push(s[i as int]));
                    assert forall|a: int, b: int| 0 <= a < b < kv.len() implies (#[trigger] kv[a]).0 != (#[trigger] kv[b]).0 by {
                        if b == kv.len() - 1 {
                            let j = choose|j: int| 0 <= j < i && (#[trigger] before[a]).0@ == s[j].0;
                            assert(kv[a].0 == s[j].0);
                        } else {
                            assert(kv[a] == bv[a] && kv[b] == bv[b]);
                        }
                    }
                    assert forall|k: int| 0 <= k < kept@.len() implies exists|j: int| 0 <= j < i + 1 && (#[trigger] kept@[k]).0@ == s[j].0 by {
                        if k < before.len() {
                            assert(kept@[k] == before[k]);
                            let j = choose|j: int| 0 <= j < i && (#[trigger] before[k]).0@ == s[j].0;
                        } else {
                            assert(kept@[k].0@ == s[i as int].0);
                        }
                    }
                }
            }
            i += 1;
        }
        proof {
            assert(s.take(n as int) =~= s);
        }
        let ghost kv = kept@.map_values(|e: (Vec<u8>, u64)| (e.0@, e.1));
        let m = kept.len();
        let mut j: usize = 0;
        while j < m
            invariant
                m == kept@.len(),
                kv == kept@.map_values(|e: (Vec<u8>, u64)| (e.0@, e.1)),
                kv == s.filter(pred),
                s == old(self)@,
                distinct_keys(kv),
                pred == is_fresh(now, window),
                j <= m,
                forall|k: int| 0 <= k < j ==> (#[trigger] kv[k]).0 != id@,
            decreases m - j,
        {
            if bytes_equal(kept[j].0.as_slice(), id) {
                proof {
                    assert(kv[j as int].0 == id@);
                }
                let key = copy_bytes(id);
                kept.set(j, (key, now));
                self.entries = kept;
                proof {
                    assert(has_key(kv, id@));
                    let c = key_index(kv, id@);
                    assert(c == j) by {
                        if c != j {
                            if c < j {
                                assert(kv[c].0 != id@);
                            } else {
                                assert(kv[j as int].0 != kv[c].0);
                            }
                        }
                    }
                    assert(self@ =~= kv.update(j as int, (id@, now)));
                    let sv = self@;
                    assert forall|a: int, b: int| 0 <= a < b < sv.len() implies (#[trigger] sv[a]).0 != (#[trigger] sv[b]).0 by {
                        if a != j && b != j {
                            assert(sv[a] == kv[a] && sv[b] == kv[b]);
                        } else if a == j {
                            assert(sv[b] == kv[b]);
                        } else {
                            assert(sv[a] == kv[a]);
                        }
                    }
                }
                return false;
            }
            j += 1;
        }
        let key = copy_bytes(id);
        kept.push((key, now));
        self.entries = kept;
        proof {
            assert(!has_key(kv, id@));
            assert(self@ =~= kv.push((id@, now)));
        }
        true
    }
}

} // verus!
