//! The PN-counter workload: each node keeps two per-actor count vectors,
//! one of non-negative increments joined by element-wise maximum, one of
//! non-positive decrements joined by element-wise minimum.  The counter's
//! value is the sum of everything in both vectors.

use vstd::prelude::*;
use crate::countvec::{
    CountVec, cv_has_key, cv_keys_unique, cv_lemma_unique_index, cv_map_of, map_lookup0,
    lemma_prefix_bounds_nonneg, lemma_prefix_bounds_nonpos, sum_of,
};
use crate::msg::{Body, Envelope};

verus! {

/// A PN-counter node: identity, gossip peers, the id counter, and the two
/// count vectors.
pub struct PnNode {
    pub id: String,
    pub neighbours: Vec<String>,
    pub next_msg_id: i64,
    pub p: CountVec,
    pub n: CountVec,
}

/// The larger of two counts.
pub open spec fn max_i64(a: i64, b: i64) -> i64 {
    if a >= b {
        a
    } else {
        b
    }
}

/// The smaller of two counts.
pub open spec fn min_i64(a: i64, b: i64) -> i64 {
    if a <= b {
        a
    } else {
        b
    }
}

/// Joining a gossiped count list into a map by element-wise maximum,
/// entry by entry.
pub open spec fn join_max(m: Map<Seq<char>, i64>, g: Seq<(String, i64)>) -> Map<Seq<char>, i64>
    decreases g.len(),
{
    if g.len() == 0 {
        m
    } else {
        let m1 = join_max(m, g.drop_last());
        let e = g.last();
        m1.insert(e.0@, max_i64(map_lookup0(m1, e.0@), e.1))
    }
}

/// Joining a gossiped count list into a map by element-wise minimum.
pub open spec fn join_min(m: Map<Seq<char>, i64>, g: Seq<(String, i64)>) -> Map<Seq<char>, i64>
    decreases g.len(),
{
    if g.len() == 0 {
        m
    } else {
        let m1 = join_min(m, g.drop_last());
        let e = g.last();
        m1.insert(e.0@, min_i64(map_lookup0(m1, e.0@), e.1))
    }
}

/// The counter's value: the sum of both vectors.
pub open spec fn pn_value(n: PnNode) -> int {
    n.p.total_spec() + n.n.total_spec()
}

impl PnNode {
    /// A node's structural invariant: both vectors are unique-keyed maps
    /// holding this node's own id, the increment vector is everywhere
    /// non-negative and the decrement vector everywhere non-positive.
    pub open spec fn wf(self) -> bool {
        &&& self.p.wf()
        &&& self.n.wf()
        &&& self.p.as_map().contains_key(self.id@)
        &&& self.n.as_map().contains_key(self.id@)
        &&& forall|k: Seq<char>| #[trigger] self.p.as_map().contains_key(k) ==> self.p.as_map()[k] >= 0
        &&& forall|k: Seq<char>| #[trigger] self.n.as_map().contains_key(k) ==> self.n.as_map()[k] <= 0
    }

    /// Builds the node named by `init` and its `init_ok` reply.  Both
    /// vectors start with a zero count for this node and for every peer
    /// in the cluster list, so the counter reads zero.
    pub fn init(id: String, node_ids: Vec<String>, src: &String, msg_id: i64) -> (r: (
        PnNode,
        Envelope,
    ))
        ensures
            r.0.wf(),
            r.0.id@ == id@,
            r.0.neighbours == node_ids,
            r.0.next_msg_id == 1,
            pn_value(r.0) == 0,
            forall|k: Seq<char>| #[trigger] r.0.p.as_map().contains_key(k) ==> r.0.p.as_map()[k]
                == 0,
            forall|k: Seq<char>| #[trigger] r.0.n.as_map().contains_key(k) ==> r.0.n.as_map()[k]
                == 0,
            forall|i: int|
                0 <= i < node_ids@.len() ==> r.0.p.as_map().contains_key(
                    (#[trigger] node_ids@[i])@,
                ) && r.0.n.as_map().contains_key(node_ids@[i]@),
            r.1.src@ == id@,
            r.1.dest@ == src@,
            r.1.body == (Body::InitOk { msg_id: 1, in_reply_to: msg_id }),
    {
        let mut p = CountVec::new();
        let mut n = CountVec::new();
        p.set(&id, 0);
        n.set(&id, 0);
        let m = node_ids.len();
        let mut i: usize = 0;
        while i < m
            invariant
                m == node_ids.len(),
                0 <= i <= m,
                p.wf(),
                n.wf(),
                p.as_map().contains_key(id@),
                n.as_map().contains_key(id@),
                forall|k: Seq<char>| #[trigger] p.as_map().contains_key(k) ==> p.as_map()[k] == 0,
                forall|k: Seq<char>| #[trigger] n.as_map().contains_key(k) ==> n.as_map()[k] == 0,
                forall|j: int|
                    0 <= j < i ==> p.as_map().contains_key((#[trigger] node_ids@[j])@)
                        && n.as_map().contains_key(node_ids@[j]@),
                p.total_spec() == 0,
                n.total_spec() == 0,
            decreases m - i,
        {
            p.set(&node_ids[i], 0);
            n.set(&node_ids[i], 0);
            i += 1;
        }
        let node = PnNode { id: id.clone(), neighbours: node_ids, next_msg_id: 1, p, n };
        let env = Envelope {
            src: id,
            dest: src.clone(),
            body: Body::InitOk { msg_id: 1, in_reply_to: msg_id },
        };
        (node, env)
    }

    /// Answers `echo` with `echo_ok` carrying the same text.
    pub fn handle_echo(&mut self, src: &String, msg_id: i64, echo: String) -> (r: Envelope)
        requires
            old(self).wf(),
            old(self).next_msg_id < i64::MAX,
        ensures
            final(self).wf(),
            final(self).next_msg_id == old(self).next_msg_id + 1,
            final(self).id == old(self).id,
            final(self).neighbours == old(self).neighbours,
            final(self).p == old(self).p,
            final(self).n == old(self).n,
            r.src@ == old(self).id@,
            r.dest@ == src@,
            r.body == (Body::EchoOk {
                msg_id: final(self).next_msg_id,
                in_reply_to: msg_id,
                echo: echo,
            }),
    {
        self.next_msg_id = self.next_msg_id + 1;
        Envelope {
            src: self.id.clone(),
            dest: src.clone(),
            body: Body::EchoOk { msg_id: self.next_msg_id, in_reply_to: msg_id, echo },
        }
    }

    /// Applies `add`: a non-negative delta raises this node's increment
    /// count, a negative delta lowers this node's decrement count, and the
    /// counter's value moves by exactly the delta.  Replies `add_ok`.
    pub fn handle_add(&mut self, src: &String, msg_id: i64, delta: i64) -> (r: Envelope)
        requires
            old(self).wf(),
            old(self).next_msg_id < i64::MAX,
            delta >= 0 ==> map_lookup0(old(self).p.as_map(), old(self).id@) + delta <= i64::MAX,
            delta < 0 ==> map_lookup0(old(self).n.as_map(), old(self).id@) + delta >= i64::MIN,
        ensures
            final(self).wf(),
            final(self).next_msg_id == old(self).next_msg_id + 1,
            final(self).id == old(self).id,
            final(self).neighbours == old(self).neighbours,
            pn_value(*final(self)) == pn_value(*old(self)) + delta,
            delta >= 0 ==> final(self).p.as_map() == old(self).p.as_map().insert(
                old(self).id@,
                (map_lookup0(old(self).p.as_map(), old(self).id@) + delta) as i64,
            ) && final(self).n == old(self).n,
            delta < 0 ==> final(self).n.as_map() == old(self).n.as_map().insert(
                old(self).id@,
                (map_lookup0(old(self).n.as_map(), old(self).id@) + delta) as i64,
            ) && final(self).p == old(self).p,
            r.src@ == old(self).id@,
            r.dest@ == src@,
            r.body == (Body::AddOk { msg_id: final(self).next_msg_id, in_reply_to: msg_id }),
    {
        if delta >= 0 {
            let cur = self.p.lookup(&self.id);
            let newv = cur + delta;
            self.p.set(&self.id, newv);
        } else {
            let cur = self.n.lookup(&self.id);
            let newv = cur + delta;
            self.n.set(&self.id, newv);
        }
        self.next_msg_id = self.next_msg_id + 1;
        Envelope {
            src: self.id.clone(),
            dest: src.clone(),
            body: Body::AddOk { msg_id: self.next_msg_id, in_reply_to: msg_id },
        }
    }

    /// Joins a peer's gossiped vectors: element-wise maximum into the
    /// increment vector, element-wise minimum into the decrement vector.
    /// Nothing is replied, and no message id is spent.
    pub fn handle_replicate(&mut self, gp: &Vec<(String, i64)>, gn: &Vec<(String, i64)>)
        requires
            old(self).wf(),
        ensures
            final(self).wf(),
            final(self).next_msg_id == old(self).next_msg_id,
            final(self).id == old(self).id,
            final(self).neighbours == old(self).neighbours,
            final(self).p.as_map() == join_max(old(self).p.as_map(), gp@),
            final(self).n.as_map() == join_min(old(self).n.as_map(), gn@),
    {
        let np = gp.len();
        let mut i: usize = 0;
        while i < np
            invariant
                np == gp.len(),
                0 <= i <= np,
                self.p.wf(),
                self.n == old(self).n,
                self.id == old(self).id,
                self.neighbours == old(self).neighbours,
                self.next_msg_id == old(self).next_msg_id,
                self.p.as_map().contains_key(self.id@),
                forall|k: Seq<char>| #[trigger] self.p.as_map().contains_key(k) ==> self.p.as_map()[k] >= 0,
                self.p.as_map() == join_max(old(self).p.as_map(), gp@.take(i as int)),
            decreases np - i,
        {
            let key = &gp[i].0;
            let gv = gp[i].1;
            let cur = self.p.lookup(key);
            let newv = if cur >= gv {
                cur
            } else {
                gv
            };
            self.p.set(key, newv);
            proof {
                assert(gp@.take(i as int + 1).drop_last() =~= gp@.take(i as int));
                assert(gp@.take(i as int + 1).last() == gp@[i as int]);
            }
            i += 1;
        }
        proof {
            assert(gp@.take(np as int) =~= gp@);
        }
        let ghost p_done = self.p;
        let nn = gn.len();
        let mut j: usize = 0;
        while j < nn
            invariant
                nn == gn.len(),
                0 <= j <= nn,
                self.n.wf(),
                self.p == p_done,
                p_done.wf(),
                p_done.as_map().contains_key(self.id@),
                forall|k: Seq<char>| #[trigger] p_done.as_map().contains_key(k) ==> p_done.as_map()[k] >= 0,
                p_done.as_map() == join_max(old(self).p.as_map(), gp@),
                self.id == old(self).id,
                self.neighbours == old(self).neighbours,
                self.next_msg_id == old(self).next_msg_id,
                self.n.as_map().contains_key(self.id@),
                forall|k: Seq<char>| #[trigger] self.n.as_map().contains_key(k) ==> self.n.as_map()[k] <= 0,
                self.n.as_map() == join_min(old(self).n.as_map(), gn@.take(j as int)),
            decreases nn - j,
        {
            let key = &gn[j].0;
            let gv = gn[j].1;
            let cur = self.n.lookup(key);
            let newv = if cur <= gv {
                cur
            } else {
                gv
            };
            self.n.set(key, newv);
            proof {
                assert(gn@.take(j as int + 1).drop_last() =~= gn@.take(j as int));
                assert(gn@.take(j as int + 1).last() == gn@[j as int]);
            }
            j += 1;
        }
        proof {
            assert(gn@.take(nn as int) =~= gn@);
        }
    }

    /// Answers `read` with the counter's value: the sum of both vectors.
    pub fn handle_read(&mut self, src: &String, msg_id: i64) -> (r: Envelope)
        requires
            old(self).wf(),
            old(self).next_msg_id < i64::MAX,
            old(self).p.total_spec() <= i64::MAX,
            old(self).n.total_spec() >= i64::MIN,
        ensures
            final(self).wf(),
            final(self).next_msg_id == old(self).next_msg_id + 1,
            final(self).id == old(self).id,
            final(self).neighbours == old(self).neighbours,
            final(self).p == old(self).p,
            final(self).n == old(self).n,
            r.src@ == old(self).id@,
            r.dest@ == src@,
            r.body matches Body::ReadOkCount { in_reply_to: irt, value } && irt == msg_id && value
                == pn_value(*old(self)),
    {
        proof {
            lemma_entry_values_nonneg(self.p);
            lemma_entry_values_nonpos(self.n);
            assert forall|t: int|
                0 <= t <= self.p.entries@.len() implies i64::MIN <= sum_of(
                #[trigger] self.p.entries@.take(t),
            ) <= i64::MAX by {
                lemma_prefix_bounds_nonneg(self.p.entries@, t);
            }
            assert forall|t: int|
                0 <= t <= self.n.entries@.len() implies i64::MIN <= sum_of(
                #[trigger] self.n.entries@.take(t),
            ) <= i64::MAX by {
                lemma_prefix_bounds_nonpos(self.n.entries@, t);
            }
        }
        let sp = self.p.total();
        let sn = self.n.total();
        proof {
            lemma_prefix_bounds_nonneg(self.p.entries@, self.p.entries@.len() as int);
            lemma_prefix_bounds_nonpos(self.n.entries@, self.n.entries@.len() as int);
            assert(self.p.entries@.take(self.p.entries@.len() as int) =~= self.p.entries@);
            assert(self.n.entries@.take(self.n.entries@.len() as int) =~= self.n.entries@);
        }
        let value = sp + sn;
        self.next_msg_id = self.next_msg_id + 1;
        Envelope {
            src: self.id.clone(),
            dest: src.clone(),
            body: Body::ReadOkCount { in_reply_to: msg_id, value },
        }
    }

    /// The gossip envelope one round of the replication task sends to one
    /// peer: this node's two full vectors.  No message id is spent.
    pub fn gossip_message(&self, dest: &String) -> (r: Envelope)
        ensures
            r.src@ == self.id@,
            r.dest@ == dest@,
            r.body matches Body::ReplicateCounts { p, n } && p@ == self.p.entries@ && n@
                == self.n.entries@,
    {
        let p = copy_counts(&self.p.entries);
        let n = copy_counts(&self.n.entries);
        Envelope {
            src: self.id.clone(),
            dest: dest.clone(),
            body: Body::ReplicateCounts { p, n },
        }
    }
}

/// Copies a count list entry by entry.
fn copy_counts(v: &Vec<(String, i64)>) -> (r: Vec<(String, i64)>)
    ensures
        r@ == v@,
{
    let mut r: Vec<(String, i64)> = Vec::new();
    let mut i: usize = 0;
    while i < v.len()
        invariant
            0 <= i <= v.len(),
            r@ == v@.take(i as int),
        decreases v.len() - i,
    {
        let e = (v[i].0.clone(), v[i].1);
        proof {
            assert(e == v@[i as int]);
        }
        r.push(e);
        proof {
            assert(v@.take(i as int + 1) =~= v@.take(i as int).push(v@[i as int]));
        }
        i += 1;
    }
    proof {
        assert(v@.take(v@.len() as int) =~= v@);
    }
    r
}

/// Under the map invariant that no increment is negative, each stored
/// entry's count is non-negative.
proof fn lemma_entry_values_nonneg(cv: CountVec)
    requires
        cv.wf(),
        forall|k: Seq<char>| #[trigger] cv.as_map().contains_key(k) ==> cv.as_map()[k] >= 0,
    ensures
        forall|j: int| 0 <= j < cv.entries@.len() ==> (#[trigger] cv.entries@[j]).1 >= 0,
{
    assert forall|j: int| 0 <= j < cv.entries@.len() implies (#[trigger] cv.entries@[j]).1 >= 0 by {
        cv_lemma_unique_index(cv.entries@, cv.entries@[j].0@, j);
        assert(cv.as_map().contains_key(cv.entries@[j].0@));
    }
}

/// Under the map invariant that no decrement is positive, each stored
/// entry's count is non-positive.
proof fn lemma_entry_values_nonpos(cv: CountVec)
    requires
        cv.wf(),
        forall|k: Seq<char>| #[trigger] cv.as_map().contains_key(k) ==> cv.as_map()[k] <= 0,
    ensures
        forall|j: int| 0 <= j < cv.entries@.len() ==> (#[trigger] cv.entries@[j]).1 <= 0,
{
    assert forall|j: int| 0 <= j < cv.entries@.len() implies (#[trigger] cv.entries@[j]).1 <= 0 by {
        cv_lemma_unique_index(cv.entries@, cv.entries@[j].0@, j);
        assert(cv.as_map().contains_key(cv.entries@[j].0@));
    }
}

/// A join by maximum never lowers a count already held: each actor's
/// increment entry is monotone non-decreasing under gossip.
pub proof fn lemma_join_max_monotone(m: Map<Seq<char>, i64>, g: Seq<(String, i64)>)
    ensures
        forall|k: Seq<char>|
            m.contains_key(k) ==> #[trigger] join_max(m, g).contains_key(k) && join_max(m, g)[k]
                >= m[k],
    decreases g.len(),
{
    if g.len() > 0 {
        lemma_join_max_monotone(m, g.drop_last());
        let m1 = join_max(m, g.drop_last());
        let e = g.last();
        let j = join_max(m, g);
        assert forall|k: Seq<char>| m.contains_key(k) implies #[trigger] j.contains_key(k) && j[k]
            >= m[k] by {
            assert(m1.contains_key(k) && m1[k] >= m[k]);
            if k == e.0@ {
                assert(map_lookup0(m1, k) == m1[k]);
            }
        }
    }
}

/// A join by minimum never raises a count already held: each actor's
/// decrement entry is monotone non-increasing under gossip.
pub proof fn lemma_join_min_monotone(m: Map<Seq<char>, i64>, g: Seq<(String, i64)>)
    ensures
        forall|k: Seq<char>|
            m.contains_key(k) ==> #[trigger] join_min(m, g).contains_key(k) && join_min(m, g)[k]
                <= m[k],
    decreases g.len(),
{
    if g.len() > 0 {
        lemma_join_min_monotone(m, g.drop_last());
        let m1 = join_min(m, g.drop_last());
        let e = g.last();
        let j = join_min(m, g);
        assert forall|k: Seq<char>| m.contains_key(k) implies #[trigger] j.contains_key(k) && j[k]
            <= m[k] by {
            assert(m1.contains_key(k) && m1[k] <= m[k]);
            if k == e.0@ {
                assert(map_lookup0(m1, k) == m1[k]);
            }
        }
    }
}

/// What a join by maximum computes, entry by entry: for an id in the
/// gossip it is the larger of the held count (absent counted as zero) and
/// the gossiped one; other ids keep their counts.
pub proof fn lemma_join_max_char(m: Map<Seq<char>, i64>, g: Seq<(String, i64)>)
    requires
        cv_keys_unique(g),
    ensures
        forall|k: Seq<char>|
            #[trigger] join_max(m, g).contains_key(k) <==> (m.contains_key(k) || cv_has_key(g, k)),
        forall|k: Seq<char>|
            cv_has_key(g, k) ==> #[trigger] join_max(m, g)[k] == max_i64(
                map_lookup0(m, k),
                cv_map_of(g)[k],
            ),
        forall|k: Seq<char>|
            !cv_has_key(g, k) && m.contains_key(k) ==> #[trigger] join_max(m, g)[k] == m[k],
    decreases g.len(),
{
    if g.len() > 0 {
        let g1 = g.drop_last();
        let e = g.last();
        let k0 = e.0@;
        lemma_join_max_char(m, g1);
        let m1 = join_max(m, g1);
        let j = join_max(m, g);
        assert(j == m1.insert(k0, max_i64(map_lookup0(m1, k0), e.1)));
        assert(!cv_has_key(g1, k0)) by {
            if cv_has_key(g1, k0) {
                let w = choose|w: int| 0 <= w < g1.len() && g1[w].0@ == k0;
                assert(g[w].0@ == g[g.len() - 1].0@);
            }
        }
        cv_lemma_unique_index(g, k0, g.len() - 1);
        assert(cv_map_of(g)[k0] == e.1);
        assert forall|k: Seq<char>|
            #[trigger] j.contains_key(k) <==> (m.contains_key(k) || cv_has_key(g, k)) by {
            if k == k0 {
                assert(cv_has_key(g, k0));
            } else {
                if cv_has_key(g, k) {
                    let w = choose|w: int| 0 <= w < g.len() && g[w].0@ == k;
                    assert(w != g.len() - 1);
                    assert(g1[w].0@ == k);
                    assert(cv_has_key(g1, k));
                }
                if cv_has_key(g1, k) {
                    let w = choose|w: int| 0 <= w < g1.len() && g1[w].0@ == k;
                    assert(g[w].0@ == k);
                    assert(cv_has_key(g, k));
                }
            }
        }
        assert forall|k: Seq<char>| cv_has_key(g, k) implies #[trigger] j[k] == max_i64(
            map_lookup0(m, k),
            cv_map_of(g)[k],
        ) by {
            if k == k0 {
                if m.contains_key(k0) {
                    assert(m1[k0] == m[k0]);
                    assert(m1.contains_key(k0));
                } else {
                    assert(!m1.contains_key(k0));
                }
                assert(map_lookup0(m1, k0) == map_lookup0(m, k0));
            } else {
                let w = choose|w: int| 0 <= w < g.len() && g[w].0@ == k;
                assert(w != g.len() - 1);
                assert(g1[w].0@ == k);
                assert(cv_has_key(g1, k));
                cv_lemma_unique_index(g1, k, w);
                cv_lemma_unique_index(g, k, w);
                assert(cv_map_of(g1)[k] == cv_map_of(g)[k]);
                assert(j[k] == m1[k]);
            }
        }
        assert forall|k: Seq<char>| !cv_has_key(g, k) && m.contains_key(k) implies #[trigger] j[k]
            == m[k] by {
            assert(k != k0);
            assert(!cv_has_key(g1, k)) by {
                if cv_has_key(g1, k) {
                    let w = choose|w: int| 0 <= w < g1.len() && g1[w].0@ == k;
                    assert(g[w].0@ == k);
                }
            }
        }
    }
}

/// What a join by minimum computes, entry by entry.
pub proof fn lemma_join_min_char(m: Map<Seq<char>, i64>, g: Seq<(String, i64)>)
    requires
        cv_keys_unique(g),
    ensures
        forall|k: Seq<char>|
            #[trigger] join_min(m, g).contains_key(k) <==> (m.contains_key(k) || cv_has_key(g, k)),
        forall|k: Seq<char>|
            cv_has_key(g, k) ==> #[trigger] join_min(m, g)[k] == min_i64(
                map_lookup0(m, k),
                cv_map_of(g)[k],
            ),
        forall|k: Seq<char>|
            !cv_has_key(g, k) && m.contains_key(k) ==> #[trigger] join_min(m, g)[k] == m[k],
    decreases g.len(),
{
    if g.len() > 0 {
        let g1 = g.drop_last();
        let e = g.last();
        let k0 = e.0@;
        lemma_join_min_char(m, g1);
        let m1 = join_min(m, g1);
        let j = join_min(m, g);
        assert(j == m1.insert(k0, min_i64(map_lookup0(m1, k0), e.1)));
        assert(!cv_has_key(g1, k0)) by {
            if cv_has_key(g1, k0) {
                let w = choose|w: int| 0 <= w < g1.len() && g1[w].0@ == k0;
                assert(g[w].0@ == g[g.len() - 1].0@);
            }
        }
        cv_lemma_unique_index(g, k0, g.len() - 1);
        assert(cv_map_of(g)[k0] == e.1);
        assert forall|k: Seq<char>|
            #[trigger] j.contains_key(k) <==> (m.contains_key(k) || cv_has_key(g, k)) by {
            if k == k0 {
                assert(cv_has_key(g, k0));
            } else {
                if cv_has_key(g, k) {
                    let w = choose|w: int| 0 <= w < g.len() && g[w].0@ == k;
                    assert(w != g.len() - 1);
                    assert(g1[w].0@ == k);
                    assert(cv_has_key(g1, k));
                }
                if cv_has_key(g1, k) {
                    let w = choose|w: int| 0 <= w < g1.len() && g1[w].0@ == k;
                    assert(g[w].0@ == k);
                    assert(cv_has_key(g, k));
                }
            }
        }
        assert forall|k: Seq<char>| cv_has_key(g, k) implies #[trigger] j[k] == min_i64(
            map_lookup0(m, k),
            cv_map_of(g)[k],
        ) by {
            if k == k0 {
                if m.contains_key(k0) {
                    assert(m1[k0] == m[k0]);
                    assert(m1.contains_key(k0));
                } else {
                    assert(!m1.contains_key(k0));
                }
                assert(map_lookup0(m1, k0) == map_lookup0(m, k0));
            } else {
                let w = choose|w: int| 0 <= w < g.len() && g[w].0@ == k;
                assert(w != g.len() - 1);
                assert(g1[w].0@ == k);
                assert(cv_has_key(g1, k));
                cv_lemma_unique_index(g1, k, w);
                cv_lemma_unique_index(g, k, w);
                assert(cv_map_of(g1)[k] == cv_map_of(g)[k]);
                assert(j[k] == m1[k]);
            }
        }
        assert forall|k: Seq<char>| !cv_has_key(g, k) && m.contains_key(k) implies #[trigger] j[k]
            == m[k] by {
            assert(k != k0);
            assert(!cv_has_key(g1, k)) by {
                if cv_has_key(g1, k) {
                    let w = choose|w: int| 0 <= w < g1.len() && g1[w].0@ == k;
                    assert(g[w].0@ == k);
                }
            }
        }
    }
}

/// Joining a node's own gossip into itself changes nothing: the join is
/// idempotent.
pub proof fn lemma_join_max_idempotent(m: Map<Seq<char>, i64>, g: Seq<(String, i64)>)
    requires
        cv_keys_unique(g),
        cv_map_of(g) == m,
    ensures
        join_max(m, g) == m,
{
    lemma_join_max_char(m, g);
    assert(join_max(m, g) =~= m);
}

/// After two nodes have each joined the other's full increment vector as
/// it stood, their increment maps agree: the join is symmetric in its two
/// sources.  Counts are non-negative, so an id known to only one side
/// settles at that side's count on both.
pub proof fn lemma_pairwise_join_max_converges(
    ma: Map<Seq<char>, i64>,
    mb: Map<Seq<char>, i64>,
    ga: Seq<(String, i64)>,
    gb: Seq<(String, i64)>,
)
    requires
        cv_keys_unique(ga),
        cv_keys_unique(gb),
        cv_map_of(ga) == ma,
        cv_map_of(gb) == mb,
        forall|k: Seq<char>| #[trigger] ma.contains_key(k) ==> ma[k] >= 0,
        forall|k: Seq<char>| #[trigger] mb.contains_key(k) ==> mb[k] >= 0,
    ensures
        join_max(ma, gb) == join_max(mb, ga),
{
    lemma_join_max_char(ma, gb);
    lemma_join_max_char(mb, ga);
    assert(join_max(ma, gb) =~= join_max(mb, ga));
}

/// The sum of a run of deltas.
pub open spec fn sum_deltas(s: Seq<int>) -> int
    decreases s.len(),
{
    if s.len() == 0 {
        0
    } else {
        sum_deltas(s.drop_last()) + s.last()
    }
}

/// A counter reads the sum of the deltas applied to it: the value starts
/// at zero and each accepted `add` moves it by exactly its delta, so after
/// any run of adds the value is their sum.
pub proof fn lemma_value_accumulates(values: Seq<int>, deltas: Seq<int>)
    requires
        values.len() == deltas.len() + 1,
        values[0] == 0,
        forall|i: int| 0 <= i < deltas.len() ==> values[i + 1] == #[trigger] values[i] + deltas[i],
    ensures
        values.last() == sum_deltas(deltas),
    decreases deltas.len(),
{
    if deltas.len() > 0 {
        let d1 = deltas.drop_last();
        let v1 = values.drop_last();
        assert forall|i: int| 0 <= i < d1.len() implies v1[i + 1] == #[trigger] v1[i] + d1[i] by {
            assert(v1[i] == values[i]);
            assert(v1[i + 1] == values[i + 1]);
            assert(d1[i] == deltas[i]);
        }
        lemma_value_accumulates(v1, d1);
        assert(values[values.len() - 2] == sum_deltas(d1));
        assert(values.last() == values[values.len() - 2] + deltas[deltas.len() - 1]);
    }
}

/// The mirrored convergence for the decrement vectors, whose counts are
/// non-positive and join by minimum.
pub proof fn lemma_pairwise_join_min_converges(
    ma: Map<Seq<char>, i64>,
    mb: Map<Seq<char>, i64>,
    ga: Seq<(String, i64)>,
    gb: Seq<(String, i64)>,
)
    requires
        cv_keys_unique(ga),
        cv_keys_unique(gb),
        cv_map_of(ga) == ma,
        cv_map_of(gb) == mb,
        forall|k: Seq<char>| #[trigger] ma.contains_key(k) ==> ma[k] <= 0,
        forall|k: Seq<char>| #[trigger] mb.contains_key(k) ==> mb[k] <= 0,
    ensures
        join_min(ma, gb) == join_min(mb, ga),
{
    lemma_join_min_char(ma, gb);
    lemma_join_min_char(mb, ga);
    assert(join_min(ma, gb) =~= join_min(mb, ga));
}

} // verus!
