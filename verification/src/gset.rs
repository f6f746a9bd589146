//! The grow-only set workload: a node that accepts `add`, answers `read`,
//! and converges with its peers by periodic full-state `replicate` gossip,
//! joined at the receiver by set union.

use vstd::prelude::*;
use crate::msg::{Body, Envelope, body_msg_id};
use crate::store::copy_list;

verus! {

/// A grow-only-set node: identity, gossip peers, the id counter, and the
/// elements held so far in arrival order.
pub struct GSetNode {
    pub id: String,
    pub neighbours: Vec<String>,
    pub next_msg_id: i64,
    pub elements: Vec<i64>,
}

/// No element occurs twice.
pub open spec fn no_dups(s: Seq<i64>) -> bool {
    forall|i: int, j: int| 0 <= i < j < s.len() ==> s[i] != s[j]
}

/// The set a node holds.
pub open spec fn elem_set(n: GSetNode) -> Set<i64> {
    n.elements@.to_set()
}

/// Inserts `x` unless already present, keeping the list duplicate-free
/// and extending it only at the end.
pub(crate) fn insert_element(v: &mut Vec<i64>, x: i64)
    requires
        no_dups(old(v)@),
    ensures
        no_dups(final(v)@),
        final(v)@.to_set() == old(v)@.to_set().insert(x),
        old(v)@.is_prefix_of(final(v)@),
{
    let n = v.len();
    let mut i: usize = 0;
    while i < n
        invariant
            n == v.len(),
            0 <= i <= n,
            v@ == old(v)@,
            no_dups(v@),
            forall|j: int| 0 <= j < i ==> v@[j] != x,
        decreases n - i,
    {
        if v[i] == x {
            proof {
                assert(v@.contains(x));
                assert(v@.to_set() =~= v@.to_set().insert(x));
                assert(v@.is_prefix_of(v@));
            }
            return;
        }
        i += 1;
    }
    let ghost s0 = v@;
    v.push(x);
    proof {
        assert(v@ == s0.push(x));
        assert(forall|j: int| 0 <= j < s0.len() ==> v@[j] == s0[j]);
        assert(no_dups(v@));
        assert forall|y: i64| v@.contains(y) implies s0.to_set().insert(x).contains(y) by {
            let w = choose|w: int| 0 <= w < v@.len() && v@[w] == y;
            if w < s0.len() {
                assert(s0[w] == y);
            }
        }
        assert forall|y: i64| s0.to_set().insert(x).contains(y) implies v@.contains(y) by {
            if s0.contains(y) {
                let w = choose|w: int| 0 <= w < s0.len() && s0[w] == y;
                assert(v@[w] == y);
            } else {
                assert(v@[s0.len() as int] == x);
            }
        }
        assert(v@.to_set() =~= s0.to_set().insert(x));
        assert(s0.is_prefix_of(v@));
    }
}

impl GSetNode {
    /// A node's structural invariant: the element list holds no duplicates.
    pub open spec fn wf(self) -> bool {
        no_dups(self.elements@)
    }

    /// Builds the node named by `init` and its `init_ok` reply to the
    /// sender.  The peer list starts as the full cluster list.
    pub fn init(id: String, node_ids: Vec<String>, src: &String, msg_id: i64) -> (r: (
        GSetNode,
        Envelope,
    ))
        ensures
            r.0.wf(),
            r.0.id@ == id@,
            r.0.neighbours == node_ids,
            r.0.next_msg_id == 1,
            elem_set(r.0) == Set::<i64>::empty(),
            r.1.src@ == id@,
            r.1.dest@ == src@,
            r.1.body == (Body::InitOk { msg_id: 1, in_reply_to: msg_id }),
    {
        let node = GSetNode { id: id.clone(), neighbours: node_ids, next_msg_id: 1, elements: Vec::new() };
        let env = Envelope {
            src: id,
            dest: src.clone(),
            body: Body::InitOk { msg_id: 1, in_reply_to: msg_id },
        };
        proof {
            assert(elem_set(node) =~= Set::<i64>::empty());
        }
        (node, env)
    }

    /// Answers `echo` with `echo_ok` carrying the same text.
    pub fn handle_echo(&mut self, src: &String, msg_id: i64, echo: String) -> (r: Envelope)
        requires
            old(self).wf(),
            old(self).next_msg_id < i64::MAX,
        ensures
            final(self).wf(),
            final(self).next_msg_id == old(self).next_msg_id + 1,
            final(self).id == old(self).id,
            final(self).neighbours == old(self).neighbours,
            final(self).elements == old(self).elements,
            r.src@ == old(self).id@,
            r.dest@ == src@,
            r.body == (Body::EchoOk {
                msg_id: final(self).next_msg_id,
                in_reply_to: msg_id,
                echo: echo,
            }),
            body_msg_id(r.body) == Some(final(self).next_msg_id),
    {
        self.next_msg_id = self.next_msg_id + 1;
        Envelope {
            src: self.id.clone(),
            dest: src.clone(),
            body: Body::EchoOk { msg_id: self.next_msg_id, in_reply_to: msg_id, echo },
        }
    }

    /// Replaces the peer list with the neighbour list `topology` assigned
    /// to this node, and acknowledges with `topology_ok`.
    pub fn handle_topology(&mut self, src: &String, msg_id: i64, neighbours: Vec<String>) -> (r:
        Envelope)
        requires
            old(self).wf(),
            old(self).next_msg_id < i64::MAX,
        ensures
            final(self).wf(),
            final(self).next_msg_id == old(self).next_msg_id + 1,
            final(self).id == old(self).id,
            final(self).neighbours == neighbours,
            final(self).elements == old(self).elements,
            r.src@ == old(self).id@,
            r.dest@ == src@,
            r.body == (Body::TopologyOk {
                msg_id: final(self).next_msg_id,
                in_reply_to: msg_id,
            }),
    {
        self.neighbours = neighbours;
        self.next_msg_id = self.next_msg_id + 1;
        Envelope {
            src: self.id.clone(),
            dest: src.clone(),
            body: Body::TopologyOk { msg_id: self.next_msg_id, in_reply_to: msg_id },
        }
    }

    /// Inserts the element of `add` and acknowledges with `add_ok`.
    pub fn handle_add(&mut self, src: &String, msg_id: i64, element: i64) -> (r: Envelope)
        requires
            old(self).wf(),
            old(self).next_msg_id < i64::MAX,
        ensures
            final(self).wf(),
            final(self).next_msg_id == old(self).next_msg_id + 1,
            final(self).id == old(self).id,
            final(self).neighbours == old(self).neighbours,
            elem_set(*final(self)) == elem_set(*old(self)).insert(element),
            old(self).elements@.is_prefix_of(final(self).elements@),
            r.src@ == old(self).id@,
            r.dest@ == src@,
            r.body == (Body::AddOk { msg_id: final(self).next_msg_id, in_reply_to: msg_id }),
    {
        insert_element(&mut self.elements, element);
        self.next_msg_id = self.next_msg_id + 1;
        Envelope {
            src: self.id.clone(),
            dest: src.clone(),
            body: Body::AddOk { msg_id: self.next_msg_id, in_reply_to: msg_id },
        }
    }

    /// Joins a peer's gossiped contents into this node's set by union.
    /// Nothing is replied, and no message id is spent.
    pub fn handle_replicate(&mut self, message: &Vec<i64>)
        requires
            old(self).wf(),
        ensures
            final(self).wf(),
            final(self).next_msg_id == old(self).next_msg_id,
            final(self).id == old(self).id,
            final(self).neighbours == old(self).neighbours,
            elem_set(*final(self)) == elem_set(*old(self)) + message@.to_set(),
            old(self).elements@.is_prefix_of(final(self).elements@),
    {
        let n = message.len();
        let mut i: usize = 0;
        while i < n
            invariant
                n == message.len(),
                self.wf(),
                0 <= i <= n,
                self.id == old(self).id,
                self.neighbours == old(self).neighbours,
                self.next_msg_id == old(self).next_msg_id,
                elem_set(*self) == elem_set(*old(self)) + message@.take(i as int).to_set(),
                old(self).elements@.is_prefix_of(self.elements@),
            decreases n - i,
        {
            insert_element(&mut self.elements, message[i]);
            proof {
                assert(message@.take(i as int + 1) =~= message@.take(i as int).push(
                    message@[i as int],
                ));
                assert forall|y: i64| message@.take(i as int + 1).contains(y) implies message@.take(
                    i as int,
                ).to_set().insert(message@[i as int]).contains(y) by {
                    let w = choose|w: int|
                        0 <= w < i + 1 && #[trigger] message@.take(i as int + 1)[w] == y;
                    if w < i {
                        assert(message@.take(i as int)[w] == y);
                    }
                }
                assert forall|y: i64|
                    message@.take(i as int).to_set().insert(message@[i as int]).contains(
                        y,
                    ) implies message@.take(i as int + 1).contains(y) by {
                    if message@.take(i as int).contains(y) {
                        let w = choose|w: int| 0 <= w < i && message@.take(i as int)[w] == y;
                        assert(message@.take(i as int + 1)[w] == y);
                    } else {
                        assert(message@.take(i as int + 1)[i as int] == y);
                    }
                }
                assert(message@.take(i as int + 1).to_set() =~= message@.take(
                    i as int,
                ).to_set().insert(message@[i as int]));
                assert(elem_set(*self) =~= elem_set(*old(self)) + message@.take(
                    i as int + 1,
                ).to_set());
            }
            i += 1;
        }
        proof {
            assert(message@.take(n as int) =~= message@);
        }
    }

    /// Answers `read` with the set held, in arrival order.
    pub fn handle_read(&mut self, src: &String, msg_id: i64) -> (r: Envelope)
        requires
            old(self).wf(),
            old(self).next_msg_id < i64::MAX,
        ensures
            final(self).wf(),
            final(self).next_msg_id == old(self).next_msg_id + 1,
            final(self).id == old(self).id,
            final(self).neighbours == old(self).neighbours,
            final(self).elements == old(self).elements,
            r.src@ == old(self).id@,
            r.dest@ == src@,
            r.body matches Body::ReadOkSet { in_reply_to: irt, value: vv } && irt == msg_id
                && vv@ == old(self).elements@,
    {
        self.next_msg_id = self.next_msg_id + 1;
        let value = copy_list(&self.elements);
        Envelope {
            src: self.id.clone(),
            dest: src.clone(),
            body: Body::ReadOkSet { in_reply_to: msg_id, value },
        }
    }

    /// The gossip envelope one round of the replication task sends to one
    /// peer: this node's full contents.  No message id is spent.
    pub fn gossip_message(&self, dest: &String) -> (r: Envelope)
        ensures
            r.src@ == self.id@,
            r.dest@ == dest@,
            r.body matches Body::ReplicateSet { message } && message@ == self.elements@,
    {
        let message = copy_list(&self.elements);
        Envelope { src: self.id.clone(), dest: dest.clone(), body: Body::ReplicateSet { message } }
    }
}

/// The grow-only set only grows: every handler can only enlarge the
/// element set, so along any chain of such steps the set held at an
/// earlier time is contained in the set held at any later time.  The same
/// holds of the broadcast log's underlying set, whose handlers give the
/// same step ensures.
pub proof fn lemma_elements_monotone(states: Seq<Set<i64>>, t1: int, t2: int)
    requires
        forall|i: int| 0 <= i < states.len() - 1 ==> #[trigger] states[i] <= states[i + 1],
        0 <= t1 <= t2 < states.len(),
    ensures
        states[t1] <= states[t2],
    decreases t2 - t1,
{
    if t1 < t2 {
        lemma_elements_monotone(states, t1 + 1, t2);
        assert(states[t1] <= states[t1 + 1]);
    }
}

/// Gossip is idempotent: a node that absorbs its own full contents is
/// unchanged.
pub proof fn lemma_self_gossip_is_absorbed(a0: GSetNode, a1: GSetNode)
    requires
        elem_set(a1) == elem_set(a0) + elem_set(a0),
    ensures
        elem_set(a1) == elem_set(a0),
{
    assert(elem_set(a0) + elem_set(a0) =~= elem_set(a0));
}

/// One full gossip exchange equalizes two nodes: if each node has joined
/// the other's contents as they stood, and nothing else changed, the two
/// nodes hold the same set.  Union is commutative, so the order of the two
/// deliveries does not matter.
pub proof fn lemma_pairwise_gossip_converges(
    a0: GSetNode,
    a1: GSetNode,
    b0: GSetNode,
    b1: GSetNode,
)
    requires
        elem_set(a1) == elem_set(a0) + elem_set(b0),
        elem_set(b1) == elem_set(b0) + elem_set(a0),
    ensures
        elem_set(a1) == elem_set(b1),
{
    assert(elem_set(a0) + elem_set(b0) =~= elem_set(b0) + elem_set(a0));
}

} // verus!
