//! A vector of per-node counts: an association list from node id to a
//! signed 64-bit count, viewed as a `Map<Seq<char>, i64>`, with a summed
//! total.  Both halves of the PN-counter are kept in one of these.

use vstd::prelude::*;

verus! {

/// An association list `node id -> count`.
pub struct CountVec {
    pub entries: Vec<(String, i64)>,
}

/// No node id occurs twice among the entries.
pub open spec fn cv_keys_unique(s: Seq<(String, i64)>) -> bool {
    forall|i: int, j: int| 0 <= i < j < s.len() ==> s[i].0@ != s[j].0@
}

/// Some entry carries the id `k`.
pub open spec fn cv_has_key(s: Seq<(String, i64)>, k: Seq<char>) -> bool {
    exists|i: int| 0 <= i < s.len() && s[i].0@ == k
}

/// The index of the entry carrying `k` (meaningful only when present).
pub open spec fn cv_index_of(s: Seq<(String, i64)>, k: Seq<char>) -> int {
    choose|i: int| 0 <= i < s.len() && s[i].0@ == k
}

/// The map an entry list denotes (meaningful under `cv_keys_unique`).
pub open spec fn cv_map_of(s: Seq<(String, i64)>) -> Map<Seq<char>, i64> {
    Map::new(|k: Seq<char>| cv_has_key(s, k), |k: Seq<char>| s[cv_index_of(s, k)].1)
}

/// The count under `k`, taking an absent id as zero.
pub open spec fn cv_lookup0(s: Seq<(String, i64)>, k: Seq<char>) -> i64 {
    if cv_has_key(s, k) {
        s[cv_index_of(s, k)].1
    } else {
        0
    }
}

/// The count a map holds under `k`, taking an absent id as zero.
pub open spec fn map_lookup0(m: Map<Seq<char>, i64>, k: Seq<char>) -> i64 {
    if m.contains_key(k) {
        m[k]
    } else {
        0
    }
}

/// The sum of all counts.
pub open spec fn sum_of(s: Seq<(String, i64)>) -> int
    decreases s.len(),
{
    if s.len() == 0 {
        0
    } else {
        sum_of(s.drop_last()) + s.last().1
    }
}

/// In a unique-keyed list, the entry found at `i` is the one chosen.
pub proof fn cv_lemma_unique_index(s: Seq<(String, i64)>, k: Seq<char>, i: int)
    requires
        cv_keys_unique(s),
        0 <= i < s.len(),
        s[i].0@ == k,
    ensures
        cv_has_key(s, k),
        cv_index_of(s, k) == i,
{
    assert(cv_has_key(s, k));
    let w = cv_index_of(s, k);
    assert(0 <= w < s.len() && s[w].0@ == k);
    if w < i {
        assert(s[w].0@ != s[i].0@);
    } else if i < w {
        assert(s[i].0@ != s[w].0@);
    }
}

/// Replacing one entry changes the sum by the difference of its count.
pub proof fn lemma_sum_update(s: Seq<(String, i64)>, i: int, e2: (String, i64))
    requires
        0 <= i < s.len(),
    ensures
        sum_of(s.update(i, e2)) == sum_of(s) - s[i].1 + e2.1,
    decreases s.len(),
{
    let s2 = s.update(i, e2);
    if i == s.len() - 1 {
        assert(s2.drop_last() =~= s.drop_last());
        assert(s2.last() == e2);
    } else {
        assert(s2.drop_last() =~= s.drop_last().update(i, e2));
        lemma_sum_update(s.drop_last(), i, e2);
        assert(s2.last() == s.last());
    }
}

/// Appending one entry adds its count to the sum.
pub proof fn lemma_sum_push(s: Seq<(String, i64)>, e: (String, i64))
    ensures
        sum_of(s.push(e)) == sum_of(s) + e.1,
{
    assert(s.push(e).drop_last() =~= s);
    assert(s.push(e).last() == e);
}

/// One step of a prefix sum.
pub proof fn lemma_sum_take_succ(s: Seq<(String, i64)>, i: int)
    requires
        0 <= i < s.len(),
    ensures
        sum_of(s.take(i + 1)) == sum_of(s.take(i)) + s[i].1,
{
    assert(s.take(i + 1).drop_last() =~= s.take(i));
    assert(s.take(i + 1).last() == s[i]);
}

/// With no negative count, every prefix sum lies between zero and the total.
pub proof fn lemma_prefix_bounds_nonneg(s: Seq<(String, i64)>, i: int)
    requires
        forall|j: int| 0 <= j < s.len() ==> (#[trigger] s[j]).1 >= 0,
        0 <= i <= s.len(),
    ensures
        0 <= sum_of(s.take(i)) <= sum_of(s),
    decreases s.len() - i, i,
{
    if i == s.len() {
        assert(s.take(i) =~= s);
        lemma_prefix_nonneg_lower(s, i);
    } else {
        lemma_sum_take_succ(s, i);
        lemma_prefix_bounds_nonneg(s, i + 1);
        lemma_prefix_nonneg_lower(s, i);
    }
}

/// With no negative count, every prefix sum is at least zero.
proof fn lemma_prefix_nonneg_lower(s: Seq<(String, i64)>, i: int)
    requires
        forall|j: int| 0 <= j < s.len() ==> (#[trigger] s[j]).1 >= 0,
        0 <= i <= s.len(),
    ensures
        sum_of(s.take(i)) >= 0,
    decreases i,
{
    if i > 0 {
        lemma_sum_take_succ(s, i - 1);
        lemma_prefix_nonneg_lower(s, i - 1);
    }
}

/// With no positive count, every prefix sum lies between the total and zero.
pub proof fn lemma_prefix_bounds_nonpos(s: Seq<(String, i64)>, i: int)
    requires
        forall|j: int| 0 <= j < s.len() ==> (#[trigger] s[j]).1 <= 0,
        0 <= i <= s.len(),
    ensures
        sum_of(s) <= sum_of(s.take(i)) <= 0,
    decreases s.len() - i, i,
{
    if i == s.len() {
        assert(s.take(i) =~= s);
        lemma_prefix_nonpos_upper(s, i);
    } else {
        lemma_sum_take_succ(s, i);
        lemma_prefix_bounds_nonpos(s, i + 1);
        lemma_prefix_nonpos_upper(s, i);
    }
}

/// With no positive count, every prefix sum is at most zero.
proof fn lemma_prefix_nonpos_upper(s: Seq<(String, i64)>, i: int)
    requires
        forall|j: int| 0 <= j < s.len() ==> (#[trigger] s[j]).1 <= 0,
        0 <= i <= s.len(),
    ensures
        sum_of(s.take(i)) <= 0,
    decreases i,
{
    if i > 0 {
        lemma_sum_take_succ(s, i - 1);
        lemma_prefix_nonpos_upper(s, i - 1);
    }
}

/// Replacing entry `i` by one with the same id denotes, at the map level,
/// the insertion of the new count under that id.
proof fn cv_lemma_update_same_key(s0: Seq<(String, i64)>, i: int, e2: (String, i64))
    requires
        cv_keys_unique(s0),
        0 <= i < s0.len(),
        e2.0@ == s0[i].0@,
    ensures
        cv_keys_unique(s0.update(i, e2)),
        cv_map_of(s0.update(i, e2)) == cv_map_of(s0).insert(e2.0@, e2.1),
{
    let s2 = s0.update(i, e2);
    let k = e2.0@;
    assert forall|a: int, b: int| 0 <= a < b < s2.len() implies s2[a].0@ != s2[b].0@ by {
        assert(s2[a].0@ == s0[a].0@);
        assert(s2[b].0@ == s0[b].0@);
    }
    cv_lemma_unique_index(s0, k, i);
    cv_lemma_unique_index(s2, k, i);
    assert forall|q: Seq<char>| cv_has_key(s0, q) implies cv_has_key(s2, q) by {
        let w = choose|w: int| 0 <= w < s0.len() && s0[w].0@ == q;
        assert(s2[w].0@ == q);
    }
    assert forall|q: Seq<char>| cv_has_key(s2, q) implies cv_has_key(s0, q) by {
        let w = choose|w: int| 0 <= w < s2.len() && s2[w].0@ == q;
        assert(s0[w].0@ == q);
    }
    let m0 = cv_map_of(s0);
    assert forall|q: Seq<char>| #[trigger] cv_map_of(s2).contains_key(q) implies cv_map_of(s2)[q]
        == m0.insert(k, e2.1)[q] by {
        let w = cv_index_of(s2, q);
        assert(0 <= w < s2.len() && s2[w].0@ == q);
        cv_lemma_unique_index(s0, q, w);
        if q == k {
            cv_lemma_unique_index(s2, k, w);
            assert(w == i);
        } else {
            assert(s2[w] == s0[w]);
        }
    }
    assert(cv_map_of(s2) =~= m0.insert(k, e2.1));
}

/// Pushing an entry with a fresh id denotes the insertion of its count.
proof fn cv_lemma_push_new_key(s0: Seq<(String, i64)>, e2: (String, i64))
    requires
        cv_keys_unique(s0),
        !cv_has_key(s0, e2.0@),
    ensures
        cv_keys_unique(s0.push(e2)),
        cv_map_of(s0.push(e2)) == cv_map_of(s0).insert(e2.0@, e2.1),
{
    let s2 = s0.push(e2);
    let k = e2.0@;
    assert forall|a: int, b: int| 0 <= a < b < s2.len() implies s2[a].0@ != s2[b].0@ by {
        if b == s0.len() {
            assert(s0[a].0@ != k);
        } else {
            assert(s2[a].0@ == s0[a].0@);
            assert(s2[b].0@ == s0[b].0@);
        }
    }
    assert(s2[s0.len() as int].0@ == k);
    cv_lemma_unique_index(s2, k, s0.len() as int);
    assert forall|q: Seq<char>| cv_has_key(s0, q) implies cv_has_key(s2, q) by {
        let w = choose|w: int| 0 <= w < s0.len() && s0[w].0@ == q;
        assert(s2[w].0@ == q);
    }
    let m0 = cv_map_of(s0);
    assert forall|q: Seq<char>| #[trigger] cv_map_of(s2).contains_key(q) implies cv_map_of(s2)[q]
        == m0.insert(k, e2.1)[q] by {
        let w = cv_index_of(s2, q);
        assert(0 <= w < s2.len() && s2[w].0@ == q);
        if q == k {
            cv_lemma_unique_index(s2, k, w);
            assert(w == s0.len());
        } else {
            assert(w != s0.len());
            assert(s2[w] == s0[w]);
            cv_lemma_unique_index(s0, q, w);
        }
    }
    assert forall|q: Seq<char>| cv_has_key(s2, q) implies (cv_has_key(s0, q) || q == k) by {
        let w = choose|w: int| 0 <= w < s2.len() && s2[w].0@ == q;
        if w != s0.len() {
            assert(s0[w].0@ == q);
        }
    }
    assert(cv_map_of(s2) =~= m0.insert(k, e2.1));
}

impl CountVec {
    /// The counts as a map keyed by node id.
    pub open spec fn as_map(self) -> Map<Seq<char>, i64> {
        cv_map_of(self.entries@)
    }

    /// Structural invariant: ids are unique, so `as_map` is faithful.
    pub open spec fn wf(self) -> bool {
        cv_keys_unique(self.entries@)
    }

    /// The summed total of all counts.
    pub open spec fn total_spec(self) -> int {
        sum_of(self.entries@)
    }

    /// An empty count vector.
    pub fn new() -> (r: CountVec)
        ensures
            r.wf(),
            r.as_map() == Map::<Seq<char>, i64>::empty(),
            r.entries@ == Seq::<(String, i64)>::empty(),
            r.total_spec() == 0,
    {
        let r = CountVec { entries: Vec::new() };
        proof {
            assert(r.as_map() =~= Map::<Seq<char>, i64>::empty());
        }
        r
    }

    /// The count under `k`, taking an absent id as zero.
    pub fn lookup(&self, k: &String) -> (r: i64)
        requires
            self.wf(),
        ensures
            r == map_lookup0(self.as_map(), k@),
    {
        let n = self.entries.len();
        let mut i: usize = 0;
        while i < n
            invariant
                n == self.entries.len(),
                0 <= i <= n,
                self.wf(),
                forall|j: int| 0 <= j < i ==> self.entries@[j].0@ != k@,
            decreases n - i,
        {
            if self.entries[i].0 == *k {
                proof {
                    cv_lemma_unique_index(self.entries@, k@, i as int);
                    assert(self.as_map().contains_key(k@));
                    assert(self.as_map()[k@] == self.entries@[i as int].1);
                }
                return self.entries[i].1;
            }
            i += 1;
        }
        proof {
            assert(!cv_has_key(self.entries@, k@));
            assert(!self.as_map().contains_key(k@));
        }
        0
    }

    /// Sums all counts.  Every prefix sum must fit in a 64-bit count,
    /// which the counter's sign invariants give its callers for free.
    pub fn total(&self) -> (r: i64)
        requires
            forall|i: int|
                0 <= i <= self.entries@.len() ==> i64::MIN <= sum_of(#[trigger] self.entries@.take(i))
                    <= i64::MAX,
        ensures
            r == self.total_spec(),
    {
        let n = self.entries.len();
        let mut acc: i64 = 0;
        let mut i: usize = 0;
        while i < n
            invariant
                n == self.entries.len(),
                0 <= i <= n,
                acc == sum_of(self.entries@.take(i as int)),
                forall|t: int|
                    0 <= t <= self.entries@.len() ==> i64::MIN <= sum_of(
                        #[trigger] self.entries@.take(t),
                    ) <= i64::MAX,
            decreases n - i,
        {
            proof {
                lemma_sum_take_succ(self.entries@, i as int);
            }
            acc = acc + self.entries[i].1;
            i += 1;
        }
        proof {
            assert(self.entries@.take(n as int) =~= self.entries@);
        }
        acc
    }

    /// Stores `v` as the count under `k`, replacing any earlier count.
    pub fn set(&mut self, k: &String, v: i64)
        requires
            old(self).wf(),
        ensures
            final(self).wf(),
            final(self).as_map() == old(self).as_map().insert(k@, v),
            final(self).total_spec() == old(self).total_spec() - map_lookup0(
                old(self).as_map(),
                k@,
            ) + v,
    {
        let ghost s0 = self.entries@;
        let n = self.entries.len();
        let mut i: usize = 0;
        while i < n
            invariant
                n == self.entries.len(),
                0 <= i <= n,
                self.wf(),
                self.entries@ == s0,
                old(self).entries@ == s0,
                forall|j: int| 0 <= j < i ==> self.entries@[j].0@ != k@,
            decreases n - i,
        {
            if self.entries[i].0 == *k {
                let e2 = (k.clone(), v);
                let ghost e2g = e2;
                self.entries.set(i, e2);
                proof {
                    assert(self.entries@ =~= s0.update(i as int, e2g));
                    cv_lemma_unique_index(s0, k@, i as int);
                    assert(cv_map_of(s0).contains_key(k@));
                    assert(cv_map_of(s0)[k@] == s0[i as int].1);
                    cv_lemma_update_same_key(s0, i as int, e2g);
                    lemma_sum_update(s0, i as int, e2g);
                }
                return;
            }
            i += 1;
        }
        let e2 = (k.clone(), v);
        let ghost e2g = e2;
        self.entries.push(e2);
        proof {
            assert(self.entries@ =~= s0.push(e2g));
            assert(!cv_has_key(s0, k@));
            assert(!cv_map_of(s0).contains_key(k@));
            cv_lemma_push_new_key(s0, e2g);
            lemma_sum_push(s0, e2g);
        }
    }
}

} // verus!
