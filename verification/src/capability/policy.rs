//! Local policy layers (hard, user, application) that remove capabilities
//! from a negotiated result.
use vstd::prelude::*;
use crate::capability::id::{CapabilityId, id_equal};

verus! {

/// The three disable layers, each a set of capability ids.
pub struct PolicyView {
    pub hard: Set<CapabilityId>,
    pub user: Set<CapabilityId>,
    pub app: Set<CapabilityId>,
}

impl PolicyView {
    /// Whether any layer disables `id`.
    pub open spec fn disables(self, id: CapabilityId) -> bool {
        self.hard.contains(id) || self.user.contains(id) || self.app.contains(id)
    }
}

/// Per-id disable lists. Applied after intersection, so no peer
/// advertisement can route around them.
#[derive(Clone)]
pub struct CapabilityPolicy {
    hard_disabled: Vec<CapabilityId>,
    user_disabled: Vec<CapabilityId>,
    app_disabled: Vec<CapabilityId>,
    named: Ghost<Seq<CapabilityId>>,
}

fn list_contains(list: &Vec<CapabilityId>, id: &CapabilityId) -> (r: bool)
    ensures
        r == list@.contains(*id),
{
    let mut i: usize = 0;
    while i < list.len()
        invariant
            i <= list@.len(),
            forall|j: int| 0 <= j < i ==> list@[j] != *id,
        decreases list@.len() - i,
    {
        if id_equal(&list[i], id) {
            assert(list@[i as int] == *id);
            return true;
        }
        i += 1;
    }
    false
}

fn list_add(list: &mut Vec<CapabilityId>, id: CapabilityId)
    ensures
        final(list)@.to_set() == old(list)@.to_set().insert(id),
{
    if !list_contains(list, &id) {
        list.push(id);
        proof {
            assert(list@.to_set() =~= old(list)@.to_set().insert(id)) by {
                assert forall|x: CapabilityId| list@.contains(x) <==> old(list)@.contains(x) || x == id by {
                    if list@.contains(x) {
                        let k = choose|k: int| 0 <= k < list@.len() && list@[k] == x;
                        if k < old(list)@.len() {
                            assert(old(list)@[k] == x);
                        }
                    }
                    if old(list)@.contains(x) {
                        let k = choose|k: int| 0 <= k < old(list)@.len() && old(list)@[k] == x;
                        assert(list@[k] == x);
                    }
                    if x == id {
                        assert(list@[list@.len() - 1] == x);
                    }
                }
            }
        }
    } else {
        proof {
            assert(list@.to_set() =~= old(list)@.to_set().insert(id));
        }
    }
}

impl View for CapabilityPolicy {
    type V = PolicyView;

    closed spec fn view(&self) -> PolicyView {
        PolicyView {
            hard: self.hard_disabled@.to_set(),
            user: self.user_disabled@.to_set(),
            app: self.app_disabled@.to_set(),
        }
    }
}

impl CapabilityPolicy {
    /// Every id passed to a disable call so far, in any layer, in call
    /// order.
    pub closed spec fn named(&self) -> Seq<CapabilityId> {
        self.named@
    }

    /// The policy disables exactly the ids that some disable call named.
    pub open spec fn wf(&self) -> bool {
        forall|id: CapabilityId| #[trigger] self@.disables(id) <==> self.named().contains(id)
    }

    pub fn new() -> (r: Self)
        ensures
            r.wf(),
            r.named() == Seq::<CapabilityId>::empty(),
            r@.hard.is_empty(),
            r@.user.is_empty(),
            r@.app.is_empty(),
    {
        let r = CapabilityPolicy {
            hard_disabled: Vec::new(),
            user_disabled: Vec::new(),
            app_disabled: Vec::new(),
            named: Ghost(Seq::empty()),
        };
        proof {
            assert(r@.hard =~= Set::<CapabilityId>::empty());
            assert(r@.user =~= Set::<CapabilityId>::empty());
            assert(r@.app =~= Set::<CapabilityId>::empty());
        }
        r
    }

    /// Security policy that no peer advertisement can override.
    pub fn disable_hard(&mut self, id: CapabilityId)
        ensures
            final(self)@.hard == old(self)@.hard.insert(id),
            final(self)@.user == old(self)@.user,
            final(self)@.app == old(self)@.app,
            final(self).named() == old(self).named().push(id),
            old(self).wf() ==> final(self).wf(),
    {
        list_add(&mut self.hard_disabled, id);
        proof {
            let before = self.named@;
            self.named@ = before.push(id);
            assert forall|x: CapabilityId| before.push(id).contains(x) <==> before.contains(x) || x == id by {
                if before.push(id).contains(x) && x != id {
                    let k = choose|k: int| 0 <= k < before.push(id).len() && before.push(id)[k] == x;
                    assert(before[k] == x);
                }
                if before.contains(x) {
                    let k = choose|k: int| 0 <= k < before.len() && before[k] == x;
                    assert(before.push(id)[k] == x);
                }
                assert(before.push(id)[before.len() as int] == id);
            }
            if old(self).wf() {
                assert forall|x: CapabilityId| #[trigger] self@.disables(x) <==> self.named().contains(x) by {
                    assert(old(self)@.disables(x) <==> old(self).named().contains(x));
                }
            }
        }
    }

    /// A capability the user turned off.
    pub fn disable_user(&mut self, id: CapabilityId)
        ensures
            final(self)@.user == old(self)@.user.insert(id),
            final(self)@.hard == old(self)@.hard,
            final(self)@.app == old(self)@.app,
            final(self).named() == old(self).named().push(id),
            old(self).wf() ==> final(self).wf(),
    {
        list_add(&mut self.user_disabled, id);
        proof {
            let before = self.named@;
            self.named@ = before.push(id);
            assert forall|x: CapabilityId| before.push(id).contains(x) <==> before.contains(x) || x == id by {
                if before.push(id).contains(x) && x != id {
                    let k = choose|k: int| 0 <= k < before.push(id).len() && before.push(id)[k] == x;
                    assert(before[k] == x);
                }
                if before.contains(x) {
                    let k = choose|k: int| 0 <= k < before.len() && before[k] == x;
                    assert(before.push(id)[k] == x);
                }
                assert(before.push(id)[before.len() as int] == id);
            }
            if old(self).wf() {
                assert forall|x: CapabilityId| #[trigger] self@.disables(x) <==> self.named().contains(x) by {
                    assert(old(self)@.disables(x) <==> old(self).named().contains(x));
                }
            }
        }
    }

    /// A capability the embedding application turned off.
    pub fn disable_app(&mut self, id: CapabilityId)
        ensures
            final(self)@.app == old(self)@.app.insert(id),
            final(self)@.hard == old(self)@.hard,
            final(self)@.user == old(self)@.user,
            final(self).named() == old(self).named().push(id),
            old(self).wf() ==> final(self).wf(),
    {
        list_add(&mut self.app_disabled, id);
        proof {
            let before = self.named@;
            self.named@ = before.push(id);
            assert forall|x: CapabilityId| before.push(id).contains(x) <==> before.contains(x) || x == id by {
                if before.push(id).contains(x) && x != id {
                    let k = choose|k: int| 0 <= k < before.push(id).len() && before.push(id)[k] == x;
                    assert(before[k] == x);
                }
                if before.contains(x) {
                    let k = choose|k: int| 0 <= k < before.len() && before[k] == x;
                    assert(before.push(id)[k] == x);
                }
                assert(before.push(id)[before.len() as int] == id);
            }
            if old(self).wf() {
                assert forall|x: CapabilityId| #[trigger] self@.disables(x) <==> self.named().contains(x) by {
                    assert(old(self)@.disables(x) <==> old(self).named().contains(x));
                }
            }
        }
    }

    /// Whether any layer disables `id`: on a well-formed policy, whether
    /// some disable call named it.
    pub fn is_disabled(&self, id: &CapabilityId) -> (r: bool)
        ensures
            r == self@.disables(*id),
            self.wf() ==> (r <==> self.named().contains(*id)),
    {
        proof {
            if self.wf() {
                assert(self@.disables(*id) <==> self.named().contains(*id));
            }
        }
        list_contains(&self.hard_disabled, id) || list_contains(&self.user_disabled, id)
            || list_contains(&self.app_disabled, id)
    }
}

impl Default for CapabilityPolicy {
    fn default() -> (r: Self)
        ensures
            r.wf(),
            r.named() == Seq::<CapabilityId>::empty(),
            r@.hard.is_empty(),
            r@.user.is_empty(),
            r@.app.is_empty(),
    {
        Self::new()
    }
}

} // verus!
