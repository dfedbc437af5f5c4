//! A bounded reorder buffer for decoded media, keyed by capture timestamp.
//! It holds up to `capacity` out-of-order arrivals and releases the oldest
//! once it is over capacity, so reordering never grows memory unboundedly.
use vstd::prelude::*;

verus! {

/// Timestamps never decrease along `s`.
pub open spec fn sorted_by_timestamp<T>(s: Seq<(u64, T)>) -> bool {
    forall|i: int, j: int| 0 <= i < j < s.len() ==> (#[trigger] s[i]).0 <= (#[trigger] s[j]).0
}

/// `p` is where an arrival stamped `ts` goes: after every entry stamped at
/// or before `ts` (so equal stamps keep arrival order), before every later
/// one.
pub open spec fn is_partition_point<T>(s: Seq<(u64, T)>, ts: u64, p: int) -> bool {
    &&& 0 <= p <= s.len()
    &&& forall|i: int| 0 <= i < p ==> (#[trigger] s[i]).0 <= ts
    &&& forall|i: int| p <= i < s.len() ==> (#[trigger] s[i]).0 > ts
}

/// After inserting, the oldest frame is released if the buffer is over
/// capacity; otherwise nothing is.
pub open spec fn push_outcome<T>(inserted: Seq<(u64, T)>, capacity: usize, released: Seq<(u64, T)>, kept: Seq<(u64, T)>) -> bool {
    if inserted.len() > capacity {
        &&& released == seq![inserted[0]]
        &&& kept == inserted.drop_first()
    } else {
        &&& released == Seq::<(u64, T)>::empty()
        &&& kept == inserted
    }
}

/// A reorder buffer of at most `capacity` frames.
pub struct JitterBuffer<T> {
    capacity: usize,
    pending: Vec<(u64, T)>,
    pushed: Ghost<nat>,
    released: Ghost<nat>,
}

impl<T> View for JitterBuffer<T> {
    type V = Seq<(u64, T)>;

    closed spec fn view(&self) -> Seq<(u64, T)> {
        self.pending@
    }
}

impl<T> JitterBuffer<T> {
    pub closed spec fn spec_capacity(&self) -> usize {
        self.capacity
    }

    /// How many frames have been pushed since the buffer was made.
    pub closed spec fn pushed(&self) -> nat {
        self.pushed@
    }

    /// How many frames push and flush have handed back since the buffer
    /// was made.
    pub closed spec fn released(&self) -> nat {
        self.released@
    }

    /// The buffer's invariant: a positive capacity that is never exceeded,
    /// pending frames in timestamp order, and exactly the frames pushed and
    /// not yet handed back are pending.
    pub open spec fn wf(&self) -> bool {
        &&& self.spec_capacity() >= 1
        &&& self@.len() <= self.spec_capacity()
        &&& sorted_by_timestamp(self@)
        &&& self@.len() + self.released() == self.pushed()
    }

    /// An empty buffer holding at most `capacity` frames.
    pub fn new(capacity: usize) -> (r: Self)
        requires
            capacity >= 1,
        ensures
            r.wf(),
            r.spec_capacity() == capacity,
            r@ == Seq::<(u64, T)>::empty(),
            r.pushed() == 0 && r.released() == 0,
    {
        JitterBuffer { capacity, pending: Vec::with_capacity(capacity), pushed: Ghost(0), released: Ghost(0) }
    }

    /// Inserts one arrival in timestamp order, after any with the same
    /// stamp. Returns nothing while under capacity, else exactly the
    /// oldest frame.
    pub fn push(&mut self, timestamp_micros: u64, item: T) -> (r: Vec<(u64, T)>)
        requires
            old(self).wf(),
        ensures
            final(self).wf(),
            final(self).spec_capacity() == old(self).spec_capacity(),
            final(self).pushed() == old(self).pushed() + 1,
            final(self).released() == old(self).released() + r@.len(),
            exists|p: int|
                #[trigger] is_partition_point(old(self)@, timestamp_micros, p) && push_outcome(
                    old(self)@.insert(p, (timestamp_micros, item)),
                    old(self).spec_capacity(),
                    r@,
                    final(self)@,
                ),
            forall|i: int| 0 <= i < r@.len() ==> forall|j: int| 0 <= j < final(self)@.len() ==> (#[trigger] r@[i]).0 <= (#[trigger] final(self)@[j]).0,
    {
        let ghost s = self.pending@;
        let n = self.pending.len();
        let mut p: usize = 0;
        while p < n && self.pending[p].0 <= timestamp_micros
            invariant
                n == self.pending@.len(),
                self.pending@ == s,
                sorted_by_timestamp(s),
                p <= n,
                forall|i: int| 0 <= i < p ==> (#[trigger] s[i]).0 <= timestamp_micros,
            decreases n - p,
        {
            p += 1;
        }
        proof {
            assert(is_partition_point(s, timestamp_micros, p as int)) by {
                if p < n {
                    assert forall|i: int| p <= i < s.len() implies (#[trigger] s[i]).0 > timestamp_micros by {
                        assert(s[p as int].0 > timestamp_micros);
                        if i > p {
                            assert(s[p as int].0 <= s[i].0);
                        }
                    }
                }
            }
        }
        let ghost entry = (timestamp_micros, item);
        self.pending.insert(p, (timestamp_micros, item));
        proof {
            self.pushed@ = self.pushed@ + 1;
        }
        let ghost inserted = self.pending@;
        proof {
            assert(inserted == s.insert(p as int, entry));
            assert(sorted_by_timestamp(inserted)) by {
                assert forall|i: int, j: int| 0 <= i < j < inserted.len() implies (#[trigger] inserted[i]).0
                    <= (#[trigger] inserted[j]).0 by {
                    if j < p {
                        assert(inserted[i] == s[i] && inserted[j] == s[j]);
                    } else if j == p {
                        assert(inserted[i] == s[i]);
                    } else if i < p {
                        assert(inserted[i] == s[i] && inserted[j] == s[j - 1]);
                    } else if i == p {
                        assert(inserted[j] == s[j - 1]);
                    } else {
                        assert(inserted[i] == s[i - 1] && inserted[j] == s[j - 1]);
                    }
                }
            }
        }
        if self.pending.len() > self.capacity {
            let oldest = self.pending.remove(0);
            let mut out: Vec<(u64, T)> = Vec::new();
            out.push(oldest);
            proof {
                self.released@ = self.released@ + 1;
            }
            proof {
                assert(self.pending@ =~= inserted.drop_first());
                assert(out@ =~= seq![inserted[0]]);
                assert forall|j: int| 0 <= j < self.pending@.len() implies out@[0].0 <= (#[trigger] self.pending@[j]).0 by {
                    assert(self.pending@[j] == inserted[j + 1]);
                }
            }
            out
        } else {
            Vec::new()
        }
    }

    /// Releases everything still buffered, oldest first, and empties the
    /// buffer.
    pub fn flush(&mut self) -> (r: Vec<(u64, T)>)
        requires
            old(self).wf(),
        ensures
            final(self).wf(),
            final(self).spec_capacity() == old(self).spec_capacity(),
            r@ == old(self)@,
            final(self)@ == Seq::<(u64, T)>::empty(),
            final(self).pushed() == old(self).pushed(),
            final(self).released() == old(self).released() + r@.len(),
            sorted_by_timestamp(r@),
    {
        let mut out: Vec<(u64, T)> = Vec::new();
        std::mem::swap(&mut self.pending, &mut out);
        proof {
            self.released@ = self.released@ + out@.len();
        }
        out
    }

    /// How many frames are pending: on a well-formed buffer, the frames
    /// pushed and not yet handed back, never over capacity.
    pub fn len(&self) -> (r: usize)
        ensures
            r == self@.len(),
            self.wf() ==> r == self.pushed() - self.released() && r <= self.spec_capacity(),
    {
        self.pending.len()
    }

    pub fn is_empty(&self) -> (r: bool)
        ensures
            r == (self@.len() == 0),
    {
        self.pending.len() == 0
    }
}

} // verus!
