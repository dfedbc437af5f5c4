//! Which chunks have been received, and the contiguous runs still missing.
use vstd::prelude::*;

verus! {

/// The number of `true` entries.
pub open spec fn count_true(s: Seq<bool>) -> nat
    decreases s.len(),
{
    if s.len() == 0 {
        0
    } else {
        count_true(s.drop_last()) + if s.last() {
            1nat
        } else {
            0nat
        }
    }
}

/// `runs` are exactly the maximal runs of `false` in `s`, as half-open
/// `[start, end)` ranges in increasing order.
pub open spec fn is_missing_runs(s: Seq<bool>, runs: Seq<(int, int)>) -> bool {
    &&& forall|k: int| 0 <= k < runs.len() ==> 0 <= (#[trigger] runs[k]).0 < runs[k].1 <= s.len()
    &&& forall|k: int, i: int| 0 <= k < runs.len() && (#[trigger] runs[k]).0 <= i < runs[k].1 ==> !(#[trigger] s[i])
    &&& forall|k: int| 0 <= k < runs.len() && (#[trigger] runs[k]).0 > 0 ==> s[runs[k].0 - 1]
    &&& forall|k: int| 0 <= k < runs.len() && (#[trigger] runs[k]).1 < s.len() ==> s[runs[k].1]
    &&& forall|k: int| 0 <= k < runs.len() - 1 ==> (#[trigger] runs[k]).1 < runs[k + 1].0
    &&& forall|i: int| 0 <= i < s.len() && !(#[trigger] s[i]) ==> exists|k: int|
        0 <= k < runs.len() && (#[trigger] runs[k]).0 <= i < runs[k].1
}

/// The ranges as `u32` pairs, as a resume request carries them.
pub open spec fn ranges_u32(runs: Seq<(int, int)>) -> Seq<(u32, u32)> {
    runs.map_values(|r: (int, int)| (r.0 as u32, r.1 as u32))
}

proof fn lemma_runs_ordered(s: Seq<bool>, a: Seq<(int, int)>, k: int, l: int)
    requires
        is_missing_runs(s, a),
        0 <= k < l < a.len(),
    ensures
        a[k].1 < a[l].0,
    decreases l - k,
{
    if l > k + 1 {
        lemma_runs_ordered(s, a, k, l - 1);
        assert(a[l - 1].1 < a[l].0);
    }
}

proof fn lemma_run_found(s: Seq<bool>, a: Seq<(int, int)>, b: Seq<(int, int)>, k: int) -> (m: int)
    requires
        is_missing_runs(s, a),
        is_missing_runs(s, b),
        0 <= k < a.len(),
    ensures
        0 <= m < b.len(),
        b[m] == a[k],
{
    let i = a[k].0;
    assert(!s[i]);
    let m = choose|m: int| 0 <= m < b.len() && (#[trigger] b[m]).0 <= i < b[m].1;
    if b[m].0 < i {
        assert(!s[i - 1]);
        assert(s[i - 1]);
    }
    if b[m].1 < a[k].1 {
        assert(!s[b[m].1]);
    }
    if a[k].1 < b[m].1 {
        assert(!s[a[k].1]);
    }
    m
}

/// The maximal missing runs of a bitmap are unique, so the runs that
/// `missing_ranges` reports are determined by the bitmap.
pub proof fn lemma_missing_runs_unique(s: Seq<bool>, a: Seq<(int, int)>, b: Seq<(int, int)>)
    requires
        is_missing_runs(s, a),
        is_missing_runs(s, b),
    ensures
        a == b,
{
    assert forall|k: int| 0 <= k < a.len() && k < b.len() implies a[k] == b[k] by {
        lemma_runs_equal_at(s, a, b, k);
    }
    if a.len() > b.len() {
        let m = lemma_run_found(s, a, b, b.len() as int);
        lemma_runs_equal_at(s, a, b, m);
        lemma_runs_ordered(s, a, m, b.len() as int);
    }
    if b.len() > a.len() {
        let m = lemma_run_found(s, b, a, a.len() as int);
        lemma_runs_equal_at(s, a, b, m);
        lemma_runs_ordered(s, b, m, a.len() as int);
    }
    assert(a =~= b);
}

proof fn lemma_runs_equal_at(s: Seq<bool>, a: Seq<(int, int)>, b: Seq<(int, int)>, k: int)
    requires
        is_missing_runs(s, a),
        is_missing_runs(s, b),
        0 <= k < a.len(),
        k < b.len(),
    ensures
        a[k] == b[k],
    decreases k,
{
    let m = lemma_run_found(s, a, b, k);
    let j = lemma_run_found(s, b, a, k);
    if m < k {
        lemma_runs_equal_at(s, a, b, m);
        lemma_runs_ordered(s, a, m, k);
    } else if m > k {
        if j < k {
            lemma_runs_equal_at(s, a, b, j);
            lemma_runs_ordered(s, b, j, k);
        } else if j > k {
            lemma_runs_ordered(s, b, k, m);
            lemma_runs_ordered(s, a, k, j);
        } else {
            lemma_runs_ordered(s, b, k, m);
        }
    }
}

/// A bitmap is complete exactly when it has no missing runs.
pub proof fn lemma_complete_iff_no_missing_runs(s: Seq<bool>, runs: Seq<(int, int)>)
    requires
        is_missing_runs(s, runs),
    ensures
        (forall|i: int| 0 <= i < s.len() ==> #[trigger] s[i]) <==> runs.len() == 0,
{
    if runs.len() > 0 {
        assert(!s[runs[0].0]);
    } else {
        assert forall|i: int| 0 <= i < s.len() implies #[trigger] s[i] by {
            if !s[i] {
                let k = choose|k: int| 0 <= k < runs.len() && (#[trigger] runs[k]).0 <= i < runs[k].1;
            }
        }
    }
}

/// The total length of half-open runs.
pub open spec fn runs_total(runs: Seq<(int, int)>) -> int
    decreases runs.len(),
{
    if runs.len() == 0 {
        0
    } else {
        runs_total(runs.drop_last()) + (runs.last().1 - runs.last().0)
    }
}

/// The received chunks and the missing runs together cover every chunk
/// once: the received count plus the total length of the missing runs is
/// the number of chunks.
pub proof fn lemma_received_plus_missing(s: Seq<bool>, runs: Seq<(int, int)>)
    requires
        is_missing_runs(s, runs),
    ensures
        count_true(s) + runs_total(runs) == s.len(),
    decreases s.len(),
{
    let n = s.len() as int;
    if n == 0 {
        if runs.len() > 0 {
            assert(0 <= runs[0].0 < runs[0].1 <= n);
        }
        return;
    }
    let t = s.drop_last();
    assert forall|i: int| 0 <= i < n - 1 implies #[trigger] t[i] == s[i] by {}
    if s.last() {
        assert forall|k: int| 0 <= k < runs.len() implies (#[trigger] runs[k]).1 <= n - 1 by {
            if runs[k].1 == n {
                assert(!s[n - 1]);
            }
        }
        assert(is_missing_runs(t, runs)) by {
            assert forall|k: int| 0 <= k < runs.len() && (#[trigger] runs[k]).0 > 0 implies t[runs[k].0 - 1] by {
                assert(runs[k].1 <= n - 1);
            }
            assert forall|k: int| 0 <= k < runs.len() && (#[trigger] runs[k]).1 < t.len() implies t[runs[k].1] by {}
            assert forall|k: int, i: int| 0 <= k < runs.len() && (#[trigger] runs[k]).0 <= i < runs[k].1 implies !(
            #[trigger] t[i]) by {
                assert(!s[i]);
            }
            assert forall|i: int| 0 <= i < t.len() && !(#[trigger] t[i]) implies exists|k: int|
                0 <= k < runs.len() && (#[trigger] runs[k]).0 <= i < runs[k].1 by {
                assert(!s[i]);
            }
        }
        lemma_received_plus_missing(t, runs);
    } else {
        assert(!s[n - 1]);
        let k0 = choose|k: int| 0 <= k < runs.len() && (#[trigger] runs[k]).0 <= n - 1 < runs[k].1;
        let m = runs.len() - 1;
        if k0 < m {
            assert(runs[k0].1 < runs[k0 + 1].0);
            assert(runs[k0 + 1].1 <= n);
        }
        assert(k0 == m);
        let a = runs[m].0;
        assert(runs[m].1 == n);
        let prev = runs.drop_last();
        assert forall|k: int| 0 <= k < prev.len() implies (#[trigger] prev[k]).1 < a by {
            lemma_runs_ordered(s, runs, k, m);
        }
        if a == n - 1 {
            assert(is_missing_runs(t, prev)) by {
                assert forall|k: int| 0 <= k < prev.len() implies 0 <= (#[trigger] prev[k]).0 < prev[k].1 <= t.len() by {
                    assert(prev[k] == runs[k]);
                }
                assert forall|k: int, i: int| 0 <= k < prev.len() && (#[trigger] prev[k]).0 <= i < prev[k].1 implies !(
                #[trigger] t[i]) by {
                    assert(prev[k] == runs[k]);
                    assert(!s[i]);
                }
                assert forall|k: int| 0 <= k < prev.len() && (#[trigger] prev[k]).0 > 0 implies t[prev[k].0 - 1] by {
                    assert(prev[k] == runs[k]);
                }
                assert forall|k: int| 0 <= k < prev.len() && (#[trigger] prev[k]).1 < t.len() implies t[prev[k].1] by {
                    assert(prev[k] == runs[k]);
                }
                assert forall|k: int| 0 <= k < prev.len() - 1 implies (#[trigger] prev[k]).1 < prev[k + 1].0 by {
                    assert(prev[k] == runs[k]);
                    assert(prev[k + 1] == runs[k + 1]);
                }
                assert forall|i: int| 0 <= i < t.len() && !(#[trigger] t[i]) implies exists|k: int|
                    0 <= k < prev.len() && (#[trigger] prev[k]).0 <= i < prev[k].1 by {
                    assert(!s[i]);
                    let k = choose|k: int| 0 <= k < runs.len() && (#[trigger] runs[k]).0 <= i < runs[k].1;
                    assert(k != m);
                    assert(prev[k] == runs[k]);
                }
            }
            lemma_received_plus_missing(t, prev);
        } else {
            let cut = prev.push((a, n - 1));
            assert forall|k: int| 0 <= k < prev.len() implies #[trigger] cut[k] == runs[k] by {}
            assert(cut[m] == (a, n - 1));
            assert(is_missing_runs(t, cut)) by {
                assert forall|k: int| 0 <= k < cut.len() implies 0 <= (#[trigger] cut[k]).0 < cut[k].1 <= t.len() by {
                    if k < m {
                        assert(cut[k] == runs[k]);
                    }
                }
                assert forall|k: int, i: int| 0 <= k < cut.len() && (#[trigger] cut[k]).0 <= i < cut[k].1 implies !(
                #[trigger] t[i]) by {
                    if k < m {
                        assert(cut[k] == runs[k]);
                    }
                    assert(!s[i]);
                }
                assert forall|k: int| 0 <= k < cut.len() && (#[trigger] cut[k]).0 > 0 implies t[cut[k].0 - 1] by {
                    if k < m {
                        assert(cut[k] == runs[k]);
                    }
                    assert(s[runs[k].0 - 1]);
                }
                assert forall|k: int| 0 <= k < cut.len() && (#[trigger] cut[k]).1 < t.len() implies t[cut[k].1] by {
                    assert(k < m);
                    assert(cut[k] == runs[k]);
                }
                assert forall|k: int| 0 <= k < cut.len() - 1 implies (#[trigger] cut[k]).1 < cut[k + 1].0 by {
                    assert(cut[k] == runs[k]);
                    if k + 1 < m {
                        assert(cut[k + 1] == runs[k + 1]);
                    }
                }
                assert forall|i: int| 0 <= i < t.len() && !(#[trigger] t[i]) implies exists|k: int|
                    0 <= k < cut.len() && (#[trigger] cut[k]).0 <= i < cut[k].1 by {
                    assert(!s[i]);
                    let k = choose|k: int| 0 <= k < runs.len() && (#[trigger] runs[k]).0 <= i < runs[k].1;
                    if k < m {
                        assert(cut[k] == runs[k]);
                    } else {
                        assert(cut[m].0 <= i < cut[m].1);
                    }
                }
            }
            lemma_received_plus_missing(t, cut);
            assert(cut.drop_last() =~= prev);
            assert(runs.drop_last() =~= prev);
        }
    }
}

/// Received chunks, by index.
#[derive(Debug, Clone, PartialEq, Eq)]
pub struct ResumeBitmap {
    received: Vec<bool>,
}

impl View for ResumeBitmap {
    type V = Seq<bool>;

    closed spec fn view(&self) -> Seq<bool> {
        self.received@
    }
}

impl ResumeBitmap {
    /// `chunk_count` chunks, none received.
    pub fn new(chunk_count: usize) -> (r: Self)
        ensures
            r@ == Seq::new(chunk_count as nat, |i: int| false),
    {
        let mut received: Vec<bool> = Vec::with_capacity(chunk_count);
        let mut i: usize = 0;
        while i < chunk_count
            invariant
                i <= chunk_count,
                received@ == Seq::new(i as nat, |j: int| false),
            decreases chunk_count - i,
        {
            received.push(false);
            i += 1;
            proof {
                assert(received@ =~= Seq::new(i as nat, |j: int| false));
            }
        }
        ResumeBitmap { received }
    }

    /// Marks a chunk received; an index past the end is ignored.
    pub fn mark_received(&mut self, chunk_index: u32)
        ensures
            final(self)@ == if (chunk_index as int) < old(self)@.len() {
                old(self)@.update(chunk_index as int, true)
            } else {
                old(self)@
            },
    {
        let i = chunk_index as usize;
        if i < self.received.len() {
            self.received.set(i, true);
        }
    }

    /// Whether a chunk has been received; `false` past the end.
    pub fn is_received(&self, chunk_index: u32) -> (r: bool)
        ensures
            r == ((chunk_index as int) < self@.len() && self@[chunk_index as int]),
    {
        let i = chunk_index as usize;
        if i < self.received.len() {
            self.received[i]
        } else {
            false
        }
    }

    /// Whether every chunk has been received.
    pub fn is_complete(&self) -> (r: bool)
        ensures
            r == (forall|i: int| 0 <= i < self@.len() ==> #[trigger] self@[i]),
    {
        let mut i: usize = 0;
        while i < self.received.len()
            invariant
                i <= self@.len(),
                forall|j: int| 0 <= j < i ==> #[trigger] self@[j],
            decreases self@.len() - i,
        {
            if !self.received[i] {
                return false;
            }
            i += 1;
        }
        true
    }

    /// How many chunks have been received.
    pub fn received_count(&self) -> (r: usize)
        ensures
            r == count_true(self@),
    {
        let mut count: usize = 0;
        let mut i: usize = 0;
        while i < self.received.len()
            invariant
                i <= self@.len(),
                count == count_true(self@.subrange(0, i as int)),
                count <= i,
            decreases self@.len() - i,
        {
            proof {
                assert(self@.subrange(0, i + 1).drop_last() =~= self@.subrange(0, i as int));
            }
            if self.received[i] {
                count += 1;
            }
            i += 1;
        }
        proof {
            assert(self@.subrange(0, self@.len() as int) =~= self@);
        }
        count
    }

    /// The contiguous runs of missing chunks as half-open `[start, end)`
    /// ranges, so a resume asks for ranges rather than single chunks.
    pub fn missing_ranges(&self) -> (r: Vec<(u32, u32)>)
        ensures
            exists|runs: Seq<(int, int)>| is_missing_runs(self@, runs) && r@ == ranges_u32(runs),
    {
        let ghost s = self@;
        let n = self.received.len();
        let mut ranges: Vec<(u32, u32)> = Vec::new();
        let mut run_start: Option<u32> = None;
        let ghost mut runs: Seq<(int, int)> = Seq::empty();
        let ghost mut open: int = 0;
        let mut i: usize = 0;
        while i < n
            invariant
                s == self@,
                n == s.len(),
                i <= n,
                ranges@ == ranges_u32(runs),
                run_start is Some ==> run_start == Some(open as u32),
                run_start is Some ==> 0 <= open < i,
                run_start is Some ==> forall|j: int| open <= j < i ==> !(#[trigger] s[j]),
                run_start is Some && open > 0 ==> s[open - 1],
                run_start is Some && runs.len() > 0 ==> runs.last().1 < open,
                run_start is None && i > 0 ==> s[i - 1],
                forall|k: int| 0 <= k < runs.len() ==> 0 <= (#[trigger] runs[k]).0 < runs[k].1 < i,
                forall|k: int, j: int| 0 <= k < runs.len() && (#[trigger] runs[k]).0 <= j < runs[k].1 ==> !(
                #[trigger] s[j]),
                forall|k: int| 0 <= k < runs.len() && (#[trigger] runs[k]).0 > 0 ==> s[runs[k].0 - 1],
                forall|k: int| 0 <= k < runs.len() ==> s[(#[trigger] runs[k]).1],
                forall|k: int| 0 <= k < runs.len() - 1 ==> (#[trigger] runs[k]).1 < runs[k + 1].0,
                forall|j: int| 0 <= j < i && !(#[trigger] s[j]) ==> (run_start is Some && open <= j) || exists|k: int|
                    0 <= k < runs.len() && (#[trigger] runs[k]).0 <= j < runs[k].1,
            decreases n - i,
        {
            let received = self.received[i];
            if !received {
                if run_start.is_none() {
                    run_start = Some(i as u32);
                    proof {
                        open = i as int;
                    }
                }
            } else {
                match run_start {
                    Some(start) => {
                        ranges.push((start, i as u32));
                        run_start = None;
                        proof {
                            let old_runs = runs;
                            runs = runs.push((open, i as int));
                            assert(ranges@ =~= ranges_u32(runs));
                            assert forall|j: int| 0 <= j < i + 1 && !(#[trigger] s[j]) implies exists|k: int|
                                0 <= k < runs.len() && (#[trigger] runs[k]).0 <= j < runs[k].1 by {
                                if open <= j {
                                    assert(runs[runs.len() - 1].0 <= j < runs[runs.len() - 1].1);
                                } else {
                                    let k = choose|k: int| 0 <= k < old_runs.len() && (#[trigger] old_runs[k]).0 <= j < old_runs[k].1;
                                    assert(runs[k] == old_runs[k]);
                                }
                            }
                        }
                    },
                    None => {},
                }
            }
            i += 1;
        }
        match run_start {
            Some(start) => {
                ranges.push((start, n as u32));
                proof {
                    let old_runs = runs;
                    runs = runs.push((open, n as int));
                    assert(ranges@ =~= ranges_u32(runs));
                    assert forall|j: int| 0 <= j < n && !(#[trigger] s[j]) implies exists|k: int|
                        0 <= k < runs.len() && (#[trigger] runs[k]).0 <= j < runs[k].1 by {
                        if open <= j {
                            assert(runs[runs.len() - 1].0 <= j < runs[runs.len() - 1].1);
                        } else {
                            let k = choose|k: int| 0 <= k < old_runs.len() && (#[trigger] old_runs[k]).0 <= j < old_runs[k].1;
                            assert(runs[k] == old_runs[k]);
                        }
                    }
                    assert(is_missing_runs(s, runs));
                }
            },
            None => {
                proof {
                    assert(is_missing_runs(s, runs));
                }
            },
        }
        ranges
    }
}

} // verus!
