//! The key/value store a transaction runs against: a mapping from an
//! integer key to the ordered sequence of values appended under it.
//!
//! The store is kept as an association list with unique keys, viewed in
//! specifications as a `Map<i64, Seq<i64>>`.

use vstd::prelude::*;

verus! {

/// A mapping `key -> appended values`, with per-key append-only histories.
pub struct Store {
    pub entries: Vec<(i64, Vec<i64>)>,
}

/// One micro-operation of a transaction.
#[derive(Clone, Copy)]
pub enum TxnOp {
    /// Append `value` to the history under `key`.
    Append { key: i64, value: i64 },
    /// Read the history under `key`.
    Read { key: i64 },
}

/// The recorded outcome of one micro-operation, echoed back to the client.
pub enum TxnResult {
    /// An append is echoed unchanged.
    Append { key: i64, value: i64 },
    /// A read carries the history found, or nothing for an absent key.
    Read { key: i64, value: Option<Vec<i64>> },
}

/// The mathematical shape of a `TxnResult`.
pub enum TxnResultView {
    Append { key: i64, value: i64 },
    Read { key: i64, value: Option<Seq<i64>> },
}

impl View for TxnResult {
    type V = TxnResultView;

    open spec fn view(&self) -> TxnResultView {
        match *self {
            TxnResult::Append { key, value } => TxnResultView::Append { key, value },
            TxnResult::Read { key, value } => TxnResultView::Read {
                key,
                value: match value {
                    Some(v) => Some(v@),
                    None => None,
                },
            },
        }
    }
}

/// The view of a whole result list.
pub open spec fn results_view(rs: Seq<TxnResult>) -> Seq<TxnResultView> {
    rs.map_values(|t: TxnResult| t@)
}

/// What one operation does to the store.
pub open spec fn apply_op(m: Map<i64, Seq<i64>>, op: TxnOp) -> Map<i64, Seq<i64>> {
    match op {
        TxnOp::Append { key, value } => m.insert(
            key,
            (if m.contains_key(key) {
                m[key]
            } else {
                Seq::<i64>::empty()
            }).push(value),
        ),
        TxnOp::Read { .. } => m,
    }
}

/// What one operation reports, given the store it sees.
pub open spec fn op_result(m: Map<i64, Seq<i64>>, op: TxnOp) -> TxnResultView {
    match op {
        TxnOp::Append { key, value } => TxnResultView::Append { key, value },
        TxnOp::Read { key } => TxnResultView::Read {
            key,
            value: if m.contains_key(key) {
                Some(m[key])
            } else {
                None
            },
        },
    }
}

/// The store after a whole operation list has run, in order.
pub open spec fn store_after(m: Map<i64, Seq<i64>>, ops: Seq<TxnOp>) -> Map<i64, Seq<i64>>
    decreases ops.len(),
{
    if ops.len() == 0 {
        m
    } else {
        apply_op(store_after(m, ops.drop_last()), ops.last())
    }
}

/// The results a whole operation list reports, each against the store
/// its predecessors left behind.
pub open spec fn txn_results(m: Map<i64, Seq<i64>>, ops: Seq<TxnOp>) -> Seq<TxnResultView>
    decreases ops.len(),
{
    if ops.len() == 0 {
        Seq::empty()
    } else {
        txn_results(m, ops.drop_last()).push(op_result(store_after(m, ops.drop_last()), ops.last()))
    }
}

/// No key occurs twice among the entries.
pub open spec fn keys_unique(s: Seq<(i64, Vec<i64>)>) -> bool {
    forall|i: int, j: int| 0 <= i < j < s.len() ==> s[i].0 != s[j].0
}

/// Some entry carries the key `k`.
pub open spec fn has_key(s: Seq<(i64, Vec<i64>)>, k: i64) -> bool {
    exists|i: int| 0 <= i < s.len() && s[i].0 == k
}

/// The index of the entry carrying `k` (meaningful only when `has_key`).
pub open spec fn index_of(s: Seq<(i64, Vec<i64>)>, k: i64) -> int {
    choose|i: int| 0 <= i < s.len() && s[i].0 == k
}

/// The map an association list denotes (meaningful under `keys_unique`).
pub open spec fn map_of(s: Seq<(i64, Vec<i64>)>) -> Map<i64, Seq<i64>> {
    Map::new(|k: i64| has_key(s, k), |k: i64| s[index_of(s, k)].1@)
}

impl Store {
    /// The store's contents as a map from key to its value history.
    pub open spec fn as_map(self) -> Map<i64, Seq<i64>> {
        map_of(self.entries@)
    }

    /// Structural invariant: keys are unique, so `as_map` is faithful.
    pub open spec fn wf(self) -> bool {
        keys_unique(self.entries@)
    }

    /// An empty store.
    pub fn new() -> (r: Store)
        ensures
            r.wf(),
            r.as_map() == Map::<i64, Seq<i64>>::empty(),
    {
        let r = Store { entries: Vec::new() };
        proof {
            assert(r.as_map() =~= Map::<i64, Seq<i64>>::empty());
        }
        r
    }

    /// Builds a store from parsed entries, refusing a list that names a
    /// key twice.
    pub fn from_entries(entries: Vec<(i64, Vec<i64>)>) -> (r: Option<Store>)
        ensures
            match r {
                Some(st) => keys_unique(entries@) && st.wf() && st.entries@ == entries@,
                None => !keys_unique(entries@),
            },
    {
        let n = entries.len();
        let mut i: usize = 0;
        while i < n
            invariant
                n == entries.len(),
                0 <= i <= n,
                forall|a: int, b: int| 0 <= a < b < n && a < i ==> entries@[a].0 != entries@[b].0,
            decreases n - i,
        {
            let mut j: usize = i + 1;
            while j < n
                invariant
                    n == entries.len(),
                    0 <= i < j <= n,
                    forall|b: int| i < b < j ==> entries@[i as int].0 != entries@[b].0,
                decreases n - j,
            {
                if entries[i].0 == entries[j].0 {
                    proof {
                        assert(!keys_unique(entries@));
                    }
                    return None;
                }
                j += 1;
            }
            i += 1;
        }
        Some(Store { entries })
    }

    /// Copies the store, entry by entry and value by value.
    pub fn duplicate(&self) -> (r: Store)
        requires
            self.wf(),
        ensures
            r.wf(),
            r.as_map() == self.as_map(),
    {
        let n = self.entries.len();
        let mut out: Vec<(i64, Vec<i64>)> = Vec::new();
        let mut i: usize = 0;
        while i < n
            invariant
                n == self.entries.len(),
                0 <= i <= n,
                self.wf(),
                out@.len() == i,
                forall|j: int|
                    0 <= j < i ==> (#[trigger] out@[j]).0 == self.entries@[j].0 && out@[j].1@
                        == self.entries@[j].1@,
            decreases n - i,
        {
            let hist = copy_list(&self.entries[i].1);
            out.push((self.entries[i].0, hist));
            i += 1;
        }
        let r = Store { entries: out };
        proof {
            let s1 = self.entries@;
            let s2 = r.entries@;
            assert forall|a: int, b: int| 0 <= a < b < s2.len() implies s2[a].0 != s2[b].0 by {
                assert(s2[a].0 == s1[a].0);
                assert(s2[b].0 == s1[b].0);
            }
            assert forall|q: i64| has_key(s1, q) implies has_key(s2, q) by {
                let w = choose|w: int| 0 <= w < s1.len() && s1[w].0 == q;
                assert(s2[w].0 == q);
            }
            assert forall|q: i64| has_key(s2, q) implies has_key(s1, q) by {
                let w = choose|w: int| 0 <= w < s2.len() && s2[w].0 == q;
                assert(s1[w].0 == q);
            }
            assert forall|q: i64| #[trigger] map_of(s2).contains_key(q) implies map_of(s2)[q]
                == map_of(s1)[q] by {
                let w = index_of(s2, q);
                assert(0 <= w < s2.len() && s2[w].0 == q);
                assert(s1[w].0 == q);
                lemma_unique_index(s1, q, w);
                lemma_unique_index(s2, q, w);
            }
            assert(map_of(s2) =~= map_of(s1));
        }
        r
    }

    /// Appends one value to the history under `k`, creating the key if
    /// it is absent.
    pub fn append(&mut self, k: i64, v: i64)
        requires
            old(self).wf(),
        ensures
            final(self).wf(),
            final(self).as_map() == apply_op(
                old(self).as_map(),
                (TxnOp::Append { key: k, value: v }),
            ),
    {
        let ghost s0 = self.entries@;
        let ghost m0 = self.as_map();
        let n = self.entries.len();
        let mut i: usize = 0;
        while i < n
            invariant
                n == self.entries.len(),
                0 <= i <= n,
                self.wf(),
                self.entries@ == s0,
                old(self).entries@ == s0,
                forall|j: int| 0 <= j < i ==> self.entries@[j].0 != k,
            decreases n - i,
        {
            if self.entries[i].0 == k {
                let mut pair = self.entries.remove(i);
                pair.1.push(v);
                let ghost e2 = pair;
                self.entries.insert(i, pair);
                proof {
                    assert(self.entries@ =~= s0.update(i as int, e2));
                    lemma_update_same_key(s0, i as int, e2, v);
                }
                return;
            }
            i += 1;
        }
        let mut hist: Vec<i64> = Vec::new();
        hist.push(v);
        let ghost e2 = (k, hist);
        self.entries.push((k, hist));
        proof {
            assert(self.entries@ =~= s0.push(e2));
            assert(!has_key(s0, k));
            assert(keys_unique(self.entries@)) by {
                assert forall|a: int, b: int|
                    0 <= a < b < self.entries@.len() implies self.entries@[a].0
                    != self.entries@[b].0 by {
                    if b == s0.len() {
                        assert(s0[a].0 != k);
                    }
                }
            }
            assert(e2.1@ =~= Seq::<i64>::empty().push(v));
            assert(self.as_map() =~= m0.insert(k, Seq::<i64>::empty().push(v))) by {
                lemma_push_new_key(s0, e2);
            }
        }
    }

    /// Looks a key up, returning its value history if present.
    pub fn get(&self, k: i64) -> (r: Option<&Vec<i64>>)
        requires
            self.wf(),
        ensures
            match r {
                Some(v) => self.as_map().contains_key(k) && v@ == self.as_map()[k],
                None => !self.as_map().contains_key(k),
            },
    {
        let n = self.entries.len();
        let mut i: usize = 0;
        while i < n
            invariant
                n == self.entries.len(),
                0 <= i <= n,
                self.wf(),
                forall|j: int| 0 <= j < i ==> self.entries@[j].0 != k,
            decreases n - i,
        {
            if self.entries[i].0 == k {
                proof {
                    assert(has_key(self.entries@, k));
                    let w = index_of(self.entries@, k);
                    assert(self.entries@[w].0 == k);
                    assert(w == i);
                }
                return Some(&self.entries[i].1);
            }
            i += 1;
        }
        proof {
            assert(!has_key(self.entries@, k));
        }
        None
    }
}

/// In a unique-keyed list, the entry found at `i` is the one `index_of` picks.
proof fn lemma_unique_index(s: Seq<(i64, Vec<i64>)>, k: i64, i: int)
    requires
        keys_unique(s),
        0 <= i < s.len(),
        s[i].0 == k,
    ensures
        has_key(s, k),
        index_of(s, k) == i,
{
    assert(has_key(s, k));
    let w = index_of(s, k);
    assert(0 <= w < s.len() && s[w].0 == k);
    if w < i {
        assert(s[w].0 != s[i].0);
    } else if i < w {
        assert(s[i].0 != s[w].0);
    }
}

/// Replacing entry `i` by one with the same key and one more value is, at
/// the map level, exactly an append under that key.
proof fn lemma_update_same_key(s0: Seq<(i64, Vec<i64>)>, i: int, e2: (i64, Vec<i64>), v: i64)
    requires
        keys_unique(s0),
        0 <= i < s0.len(),
        e2.0 == s0[i].0,
        e2.1@ == s0[i].1@.push(v),
    ensures
        keys_unique(s0.update(i, e2)),
        map_of(s0.update(i, e2)) == apply_op(
            map_of(s0),
            (TxnOp::Append { key: e2.0, value: v }),
        ),
{
    let s2 = s0.update(i, e2);
    let k = e2.0;
    assert forall|a: int, b: int| 0 <= a < b < s2.len() implies s2[a].0 != s2[b].0 by {
        assert(s2[a].0 == s0[a].0);
        assert(s2[b].0 == s0[b].0);
    }
    lemma_unique_index(s0, k, i);
    lemma_unique_index(s2, k, i);
    assert(map_of(s0).contains_key(k));
    assert forall|q: i64| has_key(s0, q) implies has_key(s2, q) by {
        let w = choose|w: int| 0 <= w < s0.len() && s0[w].0 == q;
        assert(s2[w].0 == q);
    }
    assert forall|q: i64| has_key(s2, q) implies has_key(s0, q) by {
        let w = choose|w: int| 0 <= w < s2.len() && s2[w].0 == q;
        assert(s0[w].0 == q);
    }
    let m0 = map_of(s0);
    assert forall|q: i64| #[trigger] map_of(s2).contains_key(q) implies map_of(s2)[q]
        == m0.insert(k, m0[k].push(v))[q] by {
        let w = index_of(s2, q);
        assert(0 <= w < s2.len() && s2[w].0 == q);
        lemma_unique_index(s0, q, w);
        if q == k {
            lemma_unique_index(s2, k, w);
            assert(w == i);
        } else {
            assert(s2[w] == s0[w]);
        }
    }
    assert(map_of(s2) =~= m0.insert(k, m0[k].push(v)));
}

/// Pushing an entry with a fresh key is, at the map level, the insertion
/// of that key with the entry's history.
proof fn lemma_push_new_key(s0: Seq<(i64, Vec<i64>)>, e2: (i64, Vec<i64>))
    requires
        keys_unique(s0),
        !has_key(s0, e2.0),
    ensures
        keys_unique(s0.push(e2)),
        map_of(s0.push(e2)) == map_of(s0).insert(e2.0, e2.1@),
{
    let s2 = s0.push(e2);
    let k = e2.0;
    assert forall|a: int, b: int| 0 <= a < b < s2.len() implies s2[a].0 != s2[b].0 by {
        if b == s0.len() {
            assert(s0[a].0 != k);
        } else {
            assert(s2[a].0 == s0[a].0);
            assert(s2[b].0 == s0[b].0);
        }
    }
    assert(s2[s0.len() as int].0 == k);
    lemma_unique_index(s2, k, s0.len() as int);
    assert forall|q: i64| has_key(s0, q) implies has_key(s2, q) by {
        let w = choose|w: int| 0 <= w < s0.len() && s0[w].0 == q;
        assert(s2[w].0 == q);
    }
    let m0 = map_of(s0);
    assert forall|q: i64| #[trigger] map_of(s2).contains_key(q) implies map_of(s2)[q]
        == m0.insert(k, e2.1@)[q] by {
        let w = index_of(s2, q);
        assert(0 <= w < s2.len() && s2[w].0 == q);
        if q == k {
            lemma_unique_index(s2, k, w);
            assert(w == s0.len());
        } else {
            assert(w != s0.len());
            assert(s2[w] == s0[w]);
            lemma_unique_index(s0, q, w);
        }
    }
    assert forall|q: i64| has_key(s2, q) implies (has_key(s0, q) || q == k) by {
        let w = choose|w: int| 0 <= w < s2.len() && s2[w].0 == q;
        if w != s0.len() {
            assert(s0[w].0 == q);
        }
    }
    assert(map_of(s2) =~= m0.insert(k, e2.1@));
}

/// Copies a value history element by element.
pub(crate) fn copy_list(v: &Vec<i64>) -> (r: Vec<i64>)
    ensures
        r@ == v@,
{
    let mut r: Vec<i64> = Vec::new();
    let mut i: usize = 0;
    while i < v.len()
        invariant
            0 <= i <= v.len(),
            r@ == v@.take(i as int),
        decreases v.len() - i,
    {
        r.push(v[i]);
        proof {
            assert(v@.take(i as int + 1) =~= v@.take(i as int).push(v@[i as int]));
        }
        i += 1;
    }
    proof {
        assert(v@.take(v@.len() as int) =~= v@);
    }
    r
}

/// Runs a transaction's operations, in order, against a store taken by
/// value, returning the changed store and the per-operation results.
pub fn run_transactions(store: Store, ops: &Vec<TxnOp>) -> (r: (Store, Vec<TxnResult>))
    requires
        store.wf(),
    ensures
        r.0.wf(),
        r.0.as_map() == store_after(store.as_map(), ops@),
        results_view(r.1@) == txn_results(store.as_map(), ops@),
        r.1@.len() == ops@.len(),
{
    let ghost m0 = store.as_map();
    let mut cur = store;
    let mut results: Vec<TxnResult> = Vec::new();
    let mut i: usize = 0;
    while i < ops.len()
        invariant
            0 <= i <= ops.len(),
            cur.wf(),
            cur.as_map() == store_after(m0, ops@.take(i as int)),
            results_view(results@) == txn_results(m0, ops@.take(i as int)),
            results@.len() == i,
        decreases ops.len() - i,
    {
        let ghost pre = cur.as_map();
        let ghost prefix = ops@.take(i as int);
        let op = ops[i];
        let res: TxnResult = match op {
            TxnOp::Append { key, value } => {
                cur.append(key, value);
                TxnResult::Append { key, value }
            },
            TxnOp::Read { key } => {
                let value = match cur.get(key) {
                    Some(hist) => Some(copy_list(hist)),
                    None => None,
                };
                TxnResult::Read { key, value }
            },
        };
        proof {
            assert(res@ == op_result(pre, op));
        }
        results.push(res);
        proof {
            assert(ops@.take(i as int + 1).drop_last() =~= prefix);
            assert(ops@.take(i as int + 1).last() == op);
            assert(results_view(results@) =~= results_view(results@.drop_last()).push(res@));
        }
        i += 1;
    }
    proof {
        assert(ops@.take(ops@.len() as int) =~= ops@);
    }
    (cur, results)
}

} // verus!
