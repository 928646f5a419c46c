//! Bookkeeping of the transfers that hold a live engine task: which ids
//! are active. The cancellation handles themselves live with the runtime;
//! this set carries the decisions — membership, idempotent registration,
//! and the global count.

use vstd::prelude::*;
use crate::strutil::str_eq;

verus! {

/// The ids of the downloads whose engine task is running, each at most
/// once.
pub struct ActiveSet {
    pub ids: Vec<String>,
}

pub open spec fn spec_active_distinct(ids: Seq<String>) -> bool {
    forall|i: int, j: int| 0 <= i < j < ids.len() ==> (#[trigger] ids[i])@ != (#[trigger] ids[j])@
}

pub open spec fn spec_active_has(ids: Seq<String>, id: Seq<char>) -> bool {
    exists|i: int| 0 <= i < ids.len() && ids[i]@ == id
}

impl ActiveSet {
    /// Each id appears at most once.
    pub open spec fn wf(self) -> bool {
        spec_active_distinct(self.ids@)
    }

    /// An empty set: nothing runs.
    pub fn new() -> (r: ActiveSet)
        ensures
            r.wf(),
            r.ids@ == Seq::<String>::empty(),
    {
        ActiveSet { ids: Vec::new() }
    }

    /// How many transfers hold a task.
    pub fn count(&self) -> (n: usize)
        ensures
            n == self.ids@.len(),
    {
        self.ids.len()
    }

    /// Whether this id's task is running; resuming such a row is a no-op.
    pub fn is_active(&self, id: &str) -> (r: bool)
        ensures
            r == spec_active_has(self.ids@, id@),
    {
        let n = self.ids.len();
        let mut i: usize = 0;
        while i < n
            invariant
                n == self.ids@.len(),
                i <= n,
                forall|j: int| 0 <= j < i ==> (#[trigger] self.ids@[j])@ != id@,
            decreases n - i,
        {
            if str_eq(self.ids[i].as_str(), id) {
                assert(self.ids@[i as int]@ == id@);
                return true;
            }
            i = i + 1;
        }
        false
    }

    /// Registers a running task; registering an id twice changes nothing.
    pub fn add_active(&mut self, id: String) -> (added: bool)
        requires
            old(self).wf(),
        ensures
            final(self).wf(),
            added == !spec_active_has(old(self).ids@, id@),
            final(self).ids@ == if added {
                old(self).ids@.push(id)
            } else {
                old(self).ids@
            },
    {
        if self.is_active(id.as_str()) {
            return false;
        }
        let ghost ids0 = self.ids@;
        self.ids.push(id);
        proof {
            assert forall|i: int, j: int| 0 <= i < j < self.ids@.len() implies (#[trigger] self
                .ids@[i])@ != (#[trigger] self.ids@[j])@ by {
                if j < ids0.len() {
                } else {
                    assert(self.ids@[i] == ids0[i]);
                }
            }
        }
        true
    }

    /// Removes a finished or cancelled task's id, if it is registered.
    pub fn remove_active(&mut self, id: &str) -> (removed: bool)
        requires
            old(self).wf(),
        ensures
            final(self).wf(),
            removed == spec_active_has(old(self).ids@, id@),
            !spec_active_has(final(self).ids@, id@),
            final(self).ids@.len() == old(self).ids@.len() - (if removed {
                1int
            } else {
                0int
            }),
    {
        let n = self.ids.len();
        let mut i: usize = 0;
        while i < n
            invariant
                self.wf(),
                self.ids@ == old(self).ids@,
                n == self.ids@.len(),
                i <= n,
                forall|j: int| 0 <= j < i ==> (#[trigger] self.ids@[j])@ != id@,
            decreases n - i,
        {
            if str_eq(self.ids[i].as_str(), id) {
                let ghost ids0 = self.ids@;
                proof {
                    assert(ids0[i as int]@ == id@);
                    assert(spec_active_has(old(self).ids@, id@));
                }
                self.ids.remove(i);
                proof {
                    assert forall|a: int, b: int| 0 <= a < b < self.ids@.len() implies (
                    #[trigger] self.ids@[a])@ != (#[trigger] self.ids@[b])@ by {
                        let a0 = if a < i {
                            a
                        } else {
                            a + 1
                        };
                        let b0 = if b < i {
                            b
                        } else {
                            b + 1
                        };
                        assert(self.ids@[a] == ids0[a0]);
                        assert(self.ids@[b] == ids0[b0]);
                    }
                    assert forall|j: int| 0 <= j < self.ids@.len() implies (#[trigger] self
                        .ids@[j])@ != id@ by {
                        let j0 = if j < i {
                            j
                        } else {
                            j + 1
                        };
                        assert(self.ids@[j] == ids0[j0]);
                        if j0 != i {
                            assert(ids0[j0]@ != ids0[i as int]@);
                        }
                    }
                }
                return true;
            }
            i = i + 1;
        }
        proof {
            if spec_active_has(self.ids@, id@) {
                let w = choose|j: int| 0 <= j < self.ids@.len() && self.ids@[j]@ == id@;
                assert(self.ids@[w]@ != id@);
            }
        }
        false
    }
}

} // verus!
