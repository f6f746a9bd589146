//! The broadcast workload: each value received is appended to a
//! duplicate-free log, rebroadcast to every peer but the immediate sender,
//! and retransmitted to each peer until that peer acknowledges.  Delivery
//! between reachable nodes is at-least-once; the receiver's idempotent
//! insert makes the logs' underlying sets converge.

use vstd::prelude::*;
use crate::correlator::{Correlator, delivered_set};
use crate::gset::{insert_element, no_dups};
use crate::msg::{Body, Envelope};
use crate::store::copy_list;

verus! {

/// A broadcast node: identity, peers, the id counter, the log of values
/// seen in arrival order, and the ids of retransmitters still awaiting an
/// acknowledgement.
pub struct BroadcastNode {
    pub id: String,
    pub neighbours: Vec<String>,
    pub next_msg_id: i64,
    pub log: Vec<i64>,
    pub unacked: Correlator,
}

/// The set of values a node has seen.  The log is duplicate-free, so it
/// is a permutation of this set.
pub open spec fn seen_set(n: BroadcastNode) -> Set<i64> {
    n.log@.to_set()
}

impl BroadcastNode {
    /// Structural invariant: the log holds no value twice, and every
    /// retransmitter id was allocated by this node's counter.
    pub open spec fn wf(self) -> bool {
        &&& no_dups(self.log@)
        &&& self.unacked.wf()
        &&& forall|x: i64| #[trigger] self.unacked.pending_set().contains(x) ==> x
            <= self.next_msg_id
    }

    /// Builds the node named by `init` and its `init_ok` reply.
    pub fn init(id: String, node_ids: Vec<String>, src: &String, msg_id: i64) -> (r: (
        BroadcastNode,
        Envelope,
    ))
        ensures
            r.0.wf(),
            r.0.id@ == id@,
            r.0.neighbours == node_ids,
            r.0.next_msg_id == 1,
            seen_set(r.0) == Set::<i64>::empty(),
            r.0.unacked.pending_set() == Set::<i64>::empty(),
            r.1.src@ == id@,
            r.1.dest@ == src@,
            r.1.body == (Body::InitOk { msg_id: 1, in_reply_to: msg_id }),
    {
        let node = BroadcastNode {
            id: id.clone(),
            neighbours: node_ids,
            next_msg_id: 1,
            log: Vec::new(),
            unacked: Correlator::new(),
        };
        let env = Envelope {
            src: id,
            dest: src.clone(),
            body: Body::InitOk { msg_id: 1, in_reply_to: msg_id },
        };
        proof {
            assert(seen_set(node) =~= Set::<i64>::empty());
        }
        (node, env)
    }

    /// Replaces the peer list with this node's neighbours and
    /// acknowledges with `topology_ok`.
    pub fn handle_topology(&mut self, src: &String, msg_id: i64, neighbours: Vec<String>) -> (r:
        Envelope)
        requires
            old(self).wf(),
            old(self).next_msg_id < i64::MAX,
        ensures
            final(self).wf(),
            final(self).next_msg_id == old(self).next_msg_id + 1,
            final(self).id == old(self).id,
            final(self).neighbours == neighbours,
            final(self).log == old(self).log,
            final(self).unacked == old(self).unacked,
            r.src@ == old(self).id@,
            r.dest@ == src@,
            r.body == (Body::TopologyOk { msg_id: final(self).next_msg_id, in_reply_to: msg_id }),
    {
        self.neighbours = neighbours;
        self.next_msg_id = self.next_msg_id + 1;
        Envelope {
            src: self.id.clone(),
            dest: src.clone(),
            body: Body::TopologyOk { msg_id: self.next_msg_id, in_reply_to: msg_id },
        }
    }

    /// Takes one `broadcast` in.  A value not seen before joins the log
    /// and is fanned out: the returned peers, every neighbour but the
    /// immediate sender, each get a retransmitter.  A value already seen
    /// changes nothing and is fanned out to nobody.  When the envelope
    /// carried a `msg_id` — it came from a client, not a peer rebroadcast —
    /// a `broadcast_ok` reply is returned.
    pub fn handle_broadcast(&mut self, src: &String, msg_id: Option<i64>, message: i64) -> (r: (
        Option<Envelope>,
        Vec<String>,
    ))
        requires
            old(self).wf(),
            old(self).next_msg_id < i64::MAX,
        ensures
            final(self).wf(),
            final(self).id == old(self).id,
            final(self).neighbours == old(self).neighbours,
            final(self).unacked == old(self).unacked,
            seen_set(*final(self)) == seen_set(*old(self)).insert(message),
            old(self).log@.is_prefix_of(final(self).log@),
            seen_set(*old(self)).contains(message) ==> final(self).log == old(self).log,
            !seen_set(*old(self)).contains(message) ==> r.1@ == old(self).neighbours@.filter(
                |p: String| p@ != src@,
            ),
            seen_set(*old(self)).contains(message) ==> r.1@ == Seq::<String>::empty(),
            match msg_id {
                Some(mid) => {
                    &&& final(self).next_msg_id == old(self).next_msg_id + 1
                    &&& r.0 matches Some(env) && env.src@ == old(self).id@ && env.dest@ == src@
                        && env.body == (Body::BroadcastOk {
                        msg_id: final(self).next_msg_id,
                        in_reply_to: mid,
                    })
                },
                None => {
                    &&& final(self).next_msg_id == old(self).next_msg_id
                    &&& r.0 is None
                },
            },
    {
        let fresh = !contains_value(&self.log, message);
        let mut targets: Vec<String> = Vec::new();
        if fresh {
            insert_element(&mut self.log, message);
            let n = self.neighbours.len();
            let mut i: usize = 0;
            while i < n
                invariant
                    n == self.neighbours.len(),
                    0 <= i <= n,
                    targets@ == self.neighbours@.take(i as int).filter(|p: String| p@ != src@),
                decreases n - i,
            {
                let ghost pre = self.neighbours@.take(i as int);
                if !(self.neighbours[i] == *src) {
                    targets.push(self.neighbours[i].clone());
                }
                proof {
                    reveal(Seq::filter);
                    let cur = self.neighbours@.take(i as int + 1);
                    assert(cur.drop_last() =~= pre);
                    assert(cur.last() == self.neighbours@[i as int]);
                }
                i += 1;
            }
            proof {
                assert(self.neighbours@.take(n as int) =~= self.neighbours@);
            }
        } else {
            proof {
                assert(self.log@.to_set() =~= self.log@.to_set().insert(message));
            }
        }
        let reply = match msg_id {
            Some(mid) => {
                self.next_msg_id = self.next_msg_id + 1;
                Some(
                    Envelope {
                        src: self.id.clone(),
                        dest: src.clone(),
                        body: Body::BroadcastOk { msg_id: self.next_msg_id, in_reply_to: mid },
                    },
                )
            },
            None => None,
        };
        (reply, targets)
    }

    /// Starts one retransmitter: allocates its id, marks it unacked, and
    /// builds the `broadcast` it will send the peer until acknowledged.
    pub fn start_retransmit(&mut self, peer: &String, message: i64) -> (r: (Envelope, i64))
        requires
            old(self).wf(),
            old(self).next_msg_id < i64::MAX,
        ensures
            final(self).wf(),
            final(self).id == old(self).id,
            final(self).neighbours == old(self).neighbours,
            final(self).log == old(self).log,
            r.1 == old(self).next_msg_id + 1,
            final(self).next_msg_id == r.1,
            final(self).unacked.pending_set() == old(self).unacked.pending_set().insert(r.1),
            r.0.src@ == old(self).id@,
            r.0.dest@ == peer@,
            r.0.body == (Body::Broadcast { msg_id: r.1, message: message }),
    {
        self.next_msg_id = self.next_msg_id + 1;
        let k = self.next_msg_id;
        let fresh = self.unacked.register(k);
        proof {
            assert(fresh);
        }
        let env = Envelope {
            src: self.id.clone(),
            dest: peer.clone(),
            body: Body::Broadcast { msg_id: k, message },
        };
        (env, k)
    }

    /// Whether a retransmitter may stop: its id has left the unacked set.
    pub fn acked(&self, k: i64) -> (r: bool)
        requires
            self.wf(),
        ensures
            r == !self.unacked.pending_set().contains(k),
    {
        !self.unacked.contains(k)
    }

    /// Takes a `broadcast_ok` in: the acknowledged id leaves the unacked
    /// set, so its retransmitter stops.  Already-acknowledged ids are
    /// tolerated unchanged.
    pub fn handle_broadcast_ok(&mut self, in_reply_to: i64)
        requires
            old(self).wf(),
        ensures
            final(self).wf(),
            final(self).id == old(self).id,
            final(self).neighbours == old(self).neighbours,
            final(self).log == old(self).log,
            final(self).next_msg_id == old(self).next_msg_id,
            final(self).unacked.pending_set() == delivered_set(
                old(self).unacked.pending_set(),
                in_reply_to,
            ),
    {
        let _ = self.unacked.deliver(in_reply_to);
    }

    /// Answers `read` with the log, in arrival order.
    pub fn handle_read(&mut self, src: &String, msg_id: i64) -> (r: Envelope)
        requires
            old(self).wf(),
            old(self).next_msg_id < i64::MAX,
        ensures
            final(self).wf(),
            final(self).next_msg_id == old(self).next_msg_id + 1,
            final(self).id == old(self).id,
            final(self).neighbours == old(self).neighbours,
            final(self).log == old(self).log,
            final(self).unacked == old(self).unacked,
            r.src@ == old(self).id@,
            r.dest@ == src@,
            r.body matches Body::ReadOkMessages { in_reply_to: irt, messages } && irt == msg_id
                && messages@ == old(self).log@,
    {
        self.next_msg_id = self.next_msg_id + 1;
        let messages = copy_list(&self.log);
        Envelope {
            src: self.id.clone(),
            dest: src.clone(),
            body: Body::ReadOkMessages { in_reply_to: msg_id, messages },
        }
    }
}

/// Pushing a value onto a list adds exactly that value to its set.
proof fn lemma_to_set_push(s: Seq<i64>, x: i64)
    ensures
        s.push(x).to_set() == s.to_set().insert(x),
{
    let s2 = s.push(x);
    assert forall|y: i64| s2.contains(y) implies s.to_set().insert(x).contains(y) by {
        let w = choose|w: int| 0 <= w < s2.len() && s2[w] == y;
        if w < s.len() {
            assert(s[w] == y);
        }
    }
    assert forall|y: i64| s.to_set().insert(x).contains(y) implies s2.contains(y) by {
        if s.contains(y) {
            let w = choose|w: int| 0 <= w < s.len() && s[w] == y;
            assert(s2[w] == y);
        } else {
            assert(s2[s.len() as int] == y);
        }
    }
    assert(s2.to_set() =~= s.to_set().insert(x));
}

/// What a node has seen is exactly the union of the values ever delivered
/// to it: each delivery inserts its value, insertion is idempotent, so
/// after any chain of deliveries — losses repaired by retransmission,
/// duplicates absorbed — the log's underlying set is the set of delivered
/// values, whatever their order or multiplicity.
pub proof fn lemma_seen_is_union_of_deliveries(sets: Seq<Set<i64>>, delivered: Seq<i64>)
    requires
        sets.len() == delivered.len() + 1,
        sets[0] == Set::<i64>::empty(),
        forall|i: int| 0 <= i < delivered.len() ==> sets[i + 1] == #[trigger] sets[i].insert(
            delivered[i],
        ),
    ensures
        sets.last() == delivered.to_set(),
    decreases delivered.len(),
{
    if delivered.len() == 0 {
        assert(delivered.to_set() =~= Set::<i64>::empty());
    } else {
        let d1 = delivered.drop_last();
        let s1 = sets.drop_last();
        assert forall|i: int| 0 <= i < d1.len() implies s1[i + 1] == #[trigger] s1[i].insert(
            d1[i],
        ) by {
            assert(s1[i] == sets[i]);
            assert(s1[i + 1] == sets[i + 1]);
            assert(d1[i] == delivered[i]);
        }
        lemma_seen_is_union_of_deliveries(s1, d1);
        assert(sets[sets.len() - 2] == d1.to_set());
        assert(sets.last() == sets[sets.len() - 2].insert(delivered[delivered.len() - 1]));
        assert(d1.push(delivered.last()) =~= delivered);
        lemma_to_set_push(d1, delivered.last());
    }
}

/// Whether a log already holds a value.
fn contains_value(v: &Vec<i64>, x: i64) -> (r: bool)
    ensures
        r == v@.to_set().contains(x),
{
    let n = v.len();
    let mut i: usize = 0;
    while i < n
        invariant
            n == v.len(),
            0 <= i <= n,
            forall|j: int| 0 <= j < i ==> v@[j] != x,
        decreases n - i,
    {
        if v[i] == x {
            proof {
                assert(v@.contains(x));
            }
            return true;
        }
        i += 1;
    }
    proof {
        assert(!v@.contains(x));
    }
    false
}

} // verus!
