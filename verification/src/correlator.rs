//! The reply correlator: the set of `msg_id`s with a registered delivery
//! slot.  An inbound reply is delivered at most once: a delivery takes the
//! slot out, so a second reply to the same id finds nothing.

use vstd::prelude::*;

verus! {

/// The ids of requests whose replies are still awaited.
pub struct Correlator {
    pub pending: Vec<i64>,
}

/// No id occurs twice.
pub open spec fn ids_unique(s: Seq<i64>) -> bool {
    forall|i: int, j: int| 0 <= i < j < s.len() ==> s[i] != s[j]
}

/// What a delivery leaves pending: the slot, if any, is consumed.
pub open spec fn delivered_set(s: Set<i64>, id: i64) -> Set<i64> {
    s.remove(id)
}

/// Whether a delivery finds a slot.
pub open spec fn deliver_hits(s: Set<i64>, id: i64) -> bool {
    s.contains(id)
}

/// Removing an element of a duplicate-free list takes exactly that value
/// out of the set it denotes.
proof fn lemma_remove_unique(s: Seq<i64>, i: int)
    requires
        ids_unique(s),
        0 <= i < s.len(),
    ensures
        ids_unique(s.remove(i)),
        s.remove(i).to_set() == s.to_set().remove(s[i]),
{
    let s2 = s.remove(i);
    assert forall|a: int, b: int| 0 <= a < b < s2.len() implies s2[a] != s2[b] by {
        if a < i && b < i {
            assert(s2[a] == s[a] && s2[b] == s[b]);
        } else if a < i {
            assert(s2[a] == s[a] && s2[b] == s[b + 1]);
        } else {
            assert(s2[a] == s[a + 1] && s2[b] == s[b + 1]);
        }
    }
    assert forall|y: i64| s2.contains(y) implies s.to_set().remove(s[i]).contains(y) by {
        let w = choose|w: int| 0 <= w < s2.len() && s2[w] == y;
        if w < i {
            assert(s[w] == y);
        } else {
            assert(s[w + 1] == y);
        }
    }
    assert forall|y: i64| s.to_set().remove(s[i]).contains(y) implies s2.contains(y) by {
        let w = choose|w: int| 0 <= w < s.len() && s[w] == y;
        if w < i {
            assert(s2[w] == y);
        } else {
            assert(w != i);
            assert(s2[w - 1] == y);
        }
    }
    assert(s2.to_set() =~= s.to_set().remove(s[i]));
}

impl Correlator {
    /// The pending ids as a set.
    pub open spec fn pending_set(self) -> Set<i64> {
        self.pending@.to_set()
    }

    /// Structural invariant: each id is registered at most once.
    pub open spec fn wf(self) -> bool {
        ids_unique(self.pending@)
    }

    /// A correlator with nothing awaited.
    pub fn new() -> (r: Correlator)
        ensures
            r.wf(),
            r.pending_set() == Set::<i64>::empty(),
    {
        let r = Correlator { pending: Vec::new() };
        proof {
            assert(r.pending_set() =~= Set::<i64>::empty());
        }
        r
    }

    /// Whether a slot is registered under `id`.
    pub fn contains(&self, id: i64) -> (r: bool)
        requires
            self.wf(),
        ensures
            r == self.pending_set().contains(id),
    {
        let n = self.pending.len();
        let mut i: usize = 0;
        while i < n
            invariant
                n == self.pending.len(),
                0 <= i <= n,
                forall|j: int| 0 <= j < i ==> self.pending@[j] != id,
            decreases n - i,
        {
            if self.pending[i] == id {
                proof {
                    assert(self.pending@.contains(id));
                }
                return true;
            }
            i += 1;
        }
        proof {
            assert(!self.pending@.contains(id));
        }
        false
    }

    /// Registers a slot for `id`.  Succeeds exactly when `id` was not
    /// already registered; a duplicate registration changes nothing.
    pub fn register(&mut self, id: i64) -> (fresh: bool)
        requires
            old(self).wf(),
        ensures
            final(self).wf(),
            fresh == !old(self).pending_set().contains(id),
            fresh ==> final(self).pending_set() == old(self).pending_set().insert(id),
            !fresh ==> *final(self) == *old(self),
    {
        let n = self.pending.len();
        let mut i: usize = 0;
        while i < n
            invariant
                n == self.pending.len(),
                0 <= i <= n,
                self.wf(),
                self.pending@ == old(self).pending@,
                forall|j: int| 0 <= j < i ==> self.pending@[j] != id,
            decreases n - i,
        {
            if self.pending[i] == id {
                proof {
                    assert(self.pending@.contains(id));
                }
                return false;
            }
            i += 1;
        }
        let ghost s0 = self.pending@;
        self.pending.push(id);
        proof {
            assert(!s0.contains(id));
            assert(forall|j: int| 0 <= j < s0.len() ==> self.pending@[j] == s0[j]);
            assert forall|y: i64| self.pending@.contains(y) implies s0.to_set().insert(id).contains(
                y,
            ) by {
                let w = choose|w: int| 0 <= w < self.pending@.len() && self.pending@[w] == y;
                if w < s0.len() {
                    assert(s0[w] == y);
                }
            }
            assert forall|y: i64| s0.to_set().insert(id).contains(y) implies self.pending@.contains(
                y,
            ) by {
                if s0.contains(y) {
                    let w = choose|w: int| 0 <= w < s0.len() && s0[w] == y;
                    assert(self.pending@[w] == y);
                } else {
                    assert(self.pending@[s0.len() as int] == id);
                }
            }
            assert(self.pending_set() =~= s0.to_set().insert(id));
        }
        true
    }

    /// Delivers an inbound reply to the slot registered under its
    /// `in_reply_to`, consuming the slot.  Reports whether a slot was
    /// found; a reply nobody awaits is dropped silently.
    pub fn deliver(&mut self, id: i64) -> (hit: bool)
        requires
            old(self).wf(),
        ensures
            final(self).wf(),
            hit == deliver_hits(old(self).pending_set(), id),
            final(self).pending_set() == delivered_set(old(self).pending_set(), id),
    {
        let n = self.pending.len();
        let mut i: usize = 0;
        while i < n
            invariant
                n == self.pending.len(),
                0 <= i <= n,
                self.wf(),
                self.pending@ == old(self).pending@,
                forall|j: int| 0 <= j < i ==> self.pending@[j] != id,
            decreases n - i,
        {
            if self.pending[i] == id {
                proof {
                    assert(self.pending@.contains(id));
                    lemma_remove_unique(self.pending@, i as int);
                }
                self.pending.remove(i);
                return true;
            }
            i += 1;
        }
        proof {
            assert(!self.pending@.contains(id));
            assert(self.pending_set() =~= self.pending_set().remove(id));
        }
        false
    }

    /// Takes a slot out on a waiter's exit path, whether or not a reply
    /// ever came.  The same consumption as a delivery, without the report.
    pub fn unregister(&mut self, id: i64)
        requires
            old(self).wf(),
        ensures
            final(self).wf(),
            final(self).pending_set() == delivered_set(old(self).pending_set(), id),
    {
        let _ = self.deliver(id);
    }
}

/// A slot is one-shot: once a delivery has hit, the same id can never hit
/// again, however many replies arrive, so no awaited request is answered
/// to its caller twice.
pub proof fn lemma_second_delivery_misses(s: Set<i64>, id: i64)
    ensures
        !deliver_hits(delivered_set(s, id), id),
{
}

} // verus!
