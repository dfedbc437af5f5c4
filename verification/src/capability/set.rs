//! Canonically ordered, bounded capability sets.
use vstd::prelude::*;
use vstd::std_specs::iter::IteratorSpec;
use crate::capability::descriptor::{CapabilityDescriptor, DescriptorView};
use crate::capability::id::{CapabilityId, id_lt, id_less, id_equal, lemma_id_order};

verus! {

/// Bound on the number of capabilities a set may hold.
pub const MAX_CAPABILITIES_PER_SET: usize = 512;

/// Rejection of an insert past the capacity bound.
#[derive(Debug, Clone, Copy, PartialEq, Eq, Structural)]
pub enum CapabilitySetError {
    TooManyCapabilities { max: usize },
}

/// Descriptors strictly increasing in canonical id order (so no id occurs twice).
pub open spec fn sorted_by_id(s: Seq<DescriptorView>) -> bool {
    forall|i: int, j: int| 0 <= i < j < s.len() ==> id_lt(#[trigger] s[i].id, #[trigger] s[j].id)
}

/// Whether some descriptor of `s` carries `id`.
pub open spec fn has_id(s: Seq<DescriptorView>, id: CapabilityId) -> bool {
    exists|i: int| 0 <= i < s.len() && #[trigger] s[i].id == id
}

/// A well-formed set: canonically ordered and within the capacity bound.
pub open spec fn set_wf(s: Seq<DescriptorView>) -> bool {
    sorted_by_id(s) && s.len() <= MAX_CAPABILITIES_PER_SET
}

/// The position an absent id takes in a canonically ordered sequence:
/// everything before it is smaller, everything from it on is larger.
pub open spec fn is_insert_position(s: Seq<DescriptorView>, id: CapabilityId, p: int) -> bool {
    &&& 0 <= p <= s.len()
    &&& forall|i: int| 0 <= i < p ==> id_lt(#[trigger] s[i].id, id)
    &&& forall|i: int| p <= i < s.len() ==> id_lt(id, #[trigger] s[i].id)
}

/// A bounded collection of descriptors, at most one per id, kept in
/// canonical `(namespace, code)` order at every mutation.
#[derive(Debug, Clone, PartialEq, Eq)]
pub struct CapabilitySet {
    descriptors: Vec<CapabilityDescriptor>,
}

impl View for CapabilitySet {
    type V = Seq<DescriptorView>;

    closed spec fn view(&self) -> Seq<DescriptorView> {
        self.descriptors@.map_values(|d: CapabilityDescriptor| d@)
    }
}

impl CapabilitySet {
    /// The set's invariant: canonical order and the capacity bound.
    pub open spec fn wf(&self) -> bool {
        set_wf(self@)
    }

    pub fn new() -> (r: Self)
        ensures
            r.wf(),
            r@ == Seq::<DescriptorView>::empty(),
    {
        let r = CapabilitySet { descriptors: Vec::new() };
        proof {
            assert(r@ =~= Seq::<DescriptorView>::empty());
        }
        r
    }

    /// Builds a set from descriptors already in canonical order.
    pub(crate) fn from_sorted(descriptors: Vec<CapabilityDescriptor>) -> (r: Self)
        requires
            set_wf(descriptors@.map_values(|d: CapabilityDescriptor| d@)),
        ensures
            r.wf(),
            r@ == descriptors@.map_values(|d: CapabilityDescriptor| d@),
    {
        CapabilitySet { descriptors }
    }

    /// Inserts `descriptor`, replacing any descriptor with the same id in
    /// place; a new id goes to its canonical position, unless the set is
    /// already full.
    pub fn insert(&mut self, descriptor: CapabilityDescriptor) -> (r: Result<(), CapabilitySetError>)
        requires
            old(self).wf(),
        ensures
            final(self).wf(),
            has_id(old(self)@, descriptor.id) ==> r is Ok && exists|i: int|
                0 <= i < old(self)@.len() && old(self)@[i].id == descriptor.id && final(self)@ == old(
                    self,
                )@.update(i, descriptor@),
            !has_id(old(self)@, descriptor.id) && old(self)@.len() >= MAX_CAPABILITIES_PER_SET ==> r
                == Err::<(), CapabilitySetError>(
                CapabilitySetError::TooManyCapabilities { max: MAX_CAPABILITIES_PER_SET },
            ) && final(self)@ == old(self)@,
            !has_id(old(self)@, descriptor.id) && old(self)@.len() < MAX_CAPABILITIES_PER_SET ==> r is Ok
                && exists|p: int|
                is_insert_position(old(self)@, descriptor.id, p) && final(self)@ == old(self)@.insert(
                    p,
                    descriptor@,
                ),
    {
        let ghost s0 = self@;
        let n = self.descriptors.len();
        let mut i: usize = 0;
        while i < n
            invariant
                n == self.descriptors@.len(),
                self@ == s0,
                s0 == old(self)@,
                set_wf(s0),
                i <= n,
                forall|j: int| 0 <= j < i ==> self@[j].id != descriptor.id,
            decreases n - i,
        {
            assert(self@[i as int] == self.descriptors@[i as int]@);
            if id_equal(&self.descriptors[i].id, &descriptor.id) {
                let ghost d = descriptor@;
                self.descriptors.set(i, descriptor);
                proof {
                    assert(self@ =~= s0.update(i as int, d));
                    assert(s0[i as int].id == descriptor.id);
                    assert(sorted_by_id(self@)) by {
                        assert forall|a: int, b: int| 0 <= a < b < self@.len() implies id_lt(
                            #[trigger] self@[a].id,
                            #[trigger] self@[b].id,
                        ) by {
                            assert(s0[a].id == self@[a].id);
                            assert(s0[b].id == self@[b].id);
                        }
                    }
                }
                return Ok(());
            }
            i += 1;
        }
        assert(!has_id(s0, descriptor.id));
        if n >= MAX_CAPABILITIES_PER_SET {
            return Err(CapabilitySetError::TooManyCapabilities { max: MAX_CAPABILITIES_PER_SET });
        }
        let mut p: usize = 0;
        while p < n && id_less(&self.descriptors[p].id, &descriptor.id)
            invariant
                forall|j: int| 0 <= j < n ==> s0[j] == #[trigger] self.descriptors@[j]@,
                n == self.descriptors@.len(),
                self@ == s0,
                p <= n,
                !has_id(s0, descriptor.id),
                sorted_by_id(s0),
                forall|j: int| 0 <= j < p ==> id_lt(#[trigger] s0[j].id, descriptor.id),
            decreases n - p,
        {
            p += 1;
        }
        proof {
            assert forall|j: int| p <= j < s0.len() implies id_lt(descriptor.id, #[trigger] s0[j].id) by {
                lemma_id_order(descriptor.id, s0[p as int].id, s0[j].id);
                if j > p {
                    assert(id_lt(s0[p as int].id, s0[j].id));
                }
                assert(s0[p as int].id != descriptor.id);
            }
        }
        let ghost d = descriptor@;
        self.descriptors.insert(p, descriptor);
        proof {
            assert(self@ =~= s0.insert(p as int, d));
            assert(sorted_by_id(self@)) by {
                assert forall|a: int, b: int| 0 <= a < b < self@.len() implies id_lt(
                    #[trigger] self@[a].id,
                    #[trigger] self@[b].id,
                ) by {
                    if a < p && b > p {
                        lemma_id_order(s0[a].id, descriptor.id, s0[b - 1].id);
                    }
                }
            }
            assert(is_insert_position(s0, descriptor.id, p as int));
        }
        Ok(())
    }

    /// The descriptor carrying `id`, if any.
    pub fn get(&self, id: &CapabilityId) -> (r: Option<&CapabilityDescriptor>)
        ensures
            r is None <==> !has_id(self@, *id),
            r matches Some(d) ==> exists|i: int| 0 <= i < self@.len() && self@[i].id == *id && d@ == self@[i],
    {
        let n = self.descriptors.len();
        let mut i: usize = 0;
        while i < n
            invariant
                n == self@.len(),
                i <= n,
                forall|j: int| 0 <= j < i ==> self@[j].id != *id,
            decreases n - i,
        {
            assert(self@[i as int] == self.descriptors@[i as int]@);
            if id_equal(&self.descriptors[i].id, id) {
                return Some(&self.descriptors[i]);
            }
            i += 1;
        }
        None
    }

    pub fn contains(&self, id: &CapabilityId) -> (r: bool)
        ensures
            r == has_id(self@, *id),
    {
        self.get(id).is_some()
    }

    pub fn len(&self) -> (r: usize)
        ensures
            r == self@.len(),
    {
        self.descriptors.len()
    }

    pub fn is_empty(&self) -> (r: bool)
        ensures
            r == (self@.len() == 0),
    {
        self.descriptors.len() == 0
    }

    /// The descriptors, always in canonical order.
    pub fn as_slice(&self) -> (r: &[CapabilityDescriptor])
        ensures
            r@.map_values(|d: CapabilityDescriptor| d@) == self@,
    {
        self.descriptors.as_slice()
    }

    /// Iterates the descriptors in canonical order.
    pub fn iter(&self) -> (r: std::slice::Iter<'_, CapabilityDescriptor>)
        ensures
            r.remaining().map_values(|d: &CapabilityDescriptor| d@) == self@,
    {
        let it = self.descriptors.iter();
        proof {
            broadcast use vstd::std_specs::slice::axiom_spec_slice_iter;
            assert(it.remaining().map_values(|d: &CapabilityDescriptor| d@) =~= self@);
        }
        it
    }
}

} // verus!

verus! {

/// A canonically ordered sequence is determined by its elements.
pub proof fn lemma_canonical_order_unique(s1: Seq<DescriptorView>, s2: Seq<DescriptorView>)
    requires
        sorted_by_id(s1),
        sorted_by_id(s2),
        forall|d: DescriptorView| s1.contains(d) <==> s2.contains(d),
    ensures
        s1 == s2,
    decreases s1.len(),
{
    if s1.len() == 0 {
        if s2.len() > 0 {
            assert(s2.contains(s2[0]));
        }
        assert(s1 =~= s2);
    } else {
        assert(s1.contains(s1[0]));
        let j = choose|j: int| 0 <= j < s2.len() && s2[j] == s1[0];
        assert(s2.contains(s2[0]));
        let k = choose|k: int| 0 <= k < s1.len() && s1[k] == s2[0];
        lemma_id_order(s1[0].id, s1[k].id, s1[0].id);
        if j > 0 {
            assert(id_lt(s2[0].id, s2[j].id));
            if k > 0 {
                assert(id_lt(s1[0].id, s1[k].id));
            }
            assert(false);
        }
        let t1 = s1.drop_first();
        let t2 = s2.drop_first();
        assert forall|d: DescriptorView| t1.contains(d) <==> t2.contains(d) by {
            if t1.contains(d) {
                let i = choose|i: int| 0 <= i < t1.len() && t1[i] == d;
                assert(s1.contains(d)) by { assert(s1[i + 1] == d); }
                let m = choose|m: int| 0 <= m < s2.len() && s2[m] == d;
                assert(id_lt(s1[0].id, s1[i + 1].id));
                lemma_id_order(s1[0].id, s1[0].id, s1[0].id);
                assert(m != 0);
                assert(t2[m - 1] == d);
            }
            if t2.contains(d) {
                let i = choose|i: int| 0 <= i < t2.len() && t2[i] == d;
                assert(s2.contains(d)) by { assert(s2[i + 1] == d); }
                let m = choose|m: int| 0 <= m < s1.len() && s1[m] == d;
                assert(id_lt(s2[0].id, s2[i + 1].id));
                lemma_id_order(s2[0].id, s2[0].id, s2[0].id);
                assert(m != 0);
                assert(t1[m - 1] == d);
            }
        }
        assert(sorted_by_id(t1));
        assert(sorted_by_id(t2));
        lemma_canonical_order_unique(t1, t2);
        assert(s1 =~= seq![s1[0]] + t1);
        assert(s2 =~= seq![s2[0]] + t2);
    }
}

/// Canonical order is independent of insertion history: two sets holding
/// the same descriptors are the same sequence (so they encode and hash
/// identically).
pub proof fn lemma_set_order_independent(a: CapabilitySet, b: CapabilitySet)
    requires
        a.wf(),
        b.wf(),
        forall|d: DescriptorView| a@.contains(d) <==> b@.contains(d),
    ensures
        a@ == b@,
{
    lemma_canonical_order_unique(a@, b@);
}

} // verus!
