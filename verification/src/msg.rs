//! Typed envelopes: the messages a node emits, and the facts every
//! handler states about the `msg_id`s it allocates for them.

use vstd::prelude::*;
use crate::store::{Store, TxnResult};

verus! {

/// One outbound message body, tagged as it appears on the wire.
pub enum Body {
    /// `init_ok`, acknowledging `init`.
    InitOk { msg_id: i64, in_reply_to: i64 },
    /// `echo_ok`, carrying the echoed text back.
    EchoOk { msg_id: i64, in_reply_to: i64, echo: String },
    /// `topology_ok`, acknowledging a neighbour list.
    TopologyOk { msg_id: i64, in_reply_to: i64 },
    /// `add_ok`, acknowledging a set element or a counter delta.
    AddOk { msg_id: i64, in_reply_to: i64 },
    /// `read_ok` of the grow-only set: the elements held.
    ReadOkSet { in_reply_to: i64, value: Vec<i64> },
    /// `read_ok` of the counter: the summed value.
    ReadOkCount { in_reply_to: i64, value: i64 },
    /// `read_ok` of the broadcast log: the messages seen, in arrival order.
    ReadOkMessages { in_reply_to: i64, messages: Vec<i64> },
    /// `replicate` gossip of the grow-only set's full contents.
    ReplicateSet { message: Vec<i64> },
    /// `replicate` gossip of the counter's two vectors.
    ReplicateCounts { p: Vec<(String, i64)>, n: Vec<(String, i64)> },
    /// `broadcast` retransmission of one value to a peer.
    Broadcast { msg_id: i64, message: i64 },
    /// `broadcast_ok`, acknowledging a broadcast.
    BroadcastOk { msg_id: i64, in_reply_to: i64 },
    /// `txn_ok`, carrying the per-operation results.
    TxnOk { msg_id: i64, in_reply_to: i64, txn: Vec<TxnResult> },
    /// `error`, reporting a failed transaction to the client.
    Error { msg_id: i64, in_reply_to: i64, code: i64, text: String },
    /// `read` of the remote register, sent to the key/value service.
    KvRead { msg_id: i64, key: String },
    /// `cas` on the remote register, sent to the key/value service.
    KvCas { msg_id: i64, key: String, from: Store, to: Store, create_if_not_exists: bool },
}

/// One wire envelope.
pub struct Envelope {
    pub src: String,
    pub dest: String,
    pub body: Body,
}

/// The `msg_id` a body carries, if it carries one.
pub open spec fn body_msg_id(b: Body) -> Option<i64> {
    match b {
        Body::InitOk { msg_id, .. } => Some(msg_id),
        Body::EchoOk { msg_id, .. } => Some(msg_id),
        Body::TopologyOk { msg_id, .. } => Some(msg_id),
        Body::AddOk { msg_id, .. } => Some(msg_id),
        Body::ReadOkSet { .. } => None,
        Body::ReadOkCount { .. } => None,
        Body::ReadOkMessages { .. } => None,
        Body::ReplicateSet { .. } => None,
        Body::ReplicateCounts { .. } => None,
        Body::Broadcast { msg_id, .. } => Some(msg_id),
        Body::BroadcastOk { msg_id, .. } => Some(msg_id),
        Body::TxnOk { msg_id, .. } => Some(msg_id),
        Body::Error { msg_id, .. } => Some(msg_id),
        Body::KvRead { msg_id, .. } => Some(msg_id),
        Body::KvCas { msg_id, .. } => Some(msg_id),
    }
}

/// The `in_reply_to` a body carries, if it carries one.
pub open spec fn body_in_reply_to(b: Body) -> Option<i64> {
    match b {
        Body::InitOk { in_reply_to, .. } => Some(in_reply_to),
        Body::EchoOk { in_reply_to, .. } => Some(in_reply_to),
        Body::TopologyOk { in_reply_to, .. } => Some(in_reply_to),
        Body::AddOk { in_reply_to, .. } => Some(in_reply_to),
        Body::ReadOkSet { in_reply_to, .. } => Some(in_reply_to),
        Body::ReadOkCount { in_reply_to, .. } => Some(in_reply_to),
        Body::ReadOkMessages { in_reply_to, .. } => Some(in_reply_to),
        Body::ReplicateSet { .. } => None,
        Body::ReplicateCounts { .. } => None,
        Body::Broadcast { .. } => None,
        Body::BroadcastOk { in_reply_to, .. } => Some(in_reply_to),
        Body::TxnOk { in_reply_to, .. } => Some(in_reply_to),
        Body::Error { in_reply_to, .. } => Some(in_reply_to),
        Body::KvRead { .. } => None,
        Body::KvCas { .. } => None,
    }
}

/// Every `msg_id` among `out` lies in the window `(lo, hi]`, and the ids
/// appear in strictly increasing order.  Handlers state this of what they
/// emit, with `lo` the id counter before the call and `hi` the counter
/// after it; chained over a node's life it says that the node's emitted
/// `msg_id`s form a strictly increasing sequence.
pub open spec fn ids_strictly_ascending(out: Seq<Envelope>, lo: i64, hi: i64) -> bool {
    &&& lo <= hi
    &&& forall|i: int|
        0 <= i < out.len() ==> match #[trigger] body_msg_id(out[i].body) {
            Some(id) => lo < id <= hi,
            None => true,
        }
    &&& forall|i: int, j: int|
        #![trigger body_msg_id(out[i].body), body_msg_id(out[j].body)]
        0 <= i < j < out.len() ==> match (body_msg_id(out[i].body), body_msg_id(out[j].body)) {
            (Some(a), Some(b)) => a < b,
            _ => true,
        }
}

/// A lone envelope whose id is the new counter value sits in the window.
pub proof fn lemma_ids_ascending_singleton(e: Envelope, lo: i64, hi: i64)
    requires
        lo < hi,
        body_msg_id(e.body) == Some(hi),
    ensures
        ids_strictly_ascending(seq![e], lo, hi),
{
}

/// Emitting nothing respects any window.
pub proof fn lemma_ids_ascending_empty(lo: i64, hi: i64)
    requires
        lo <= hi,
    ensures
        ids_strictly_ascending(Seq::<Envelope>::empty(), lo, hi),
{
}

/// Ids monotone across consecutive steps: what one step emits after
/// another keeps the whole emission strictly increasing.
pub proof fn lemma_ids_ascending_concat(a: Seq<Envelope>, b: Seq<Envelope>, lo: i64, mid: i64, hi: i64)
    requires
        ids_strictly_ascending(a, lo, mid),
        ids_strictly_ascending(b, mid, hi),
    ensures
        ids_strictly_ascending(a + b, lo, hi),
{
    let c = a + b;
    assert forall|i: int|
        0 <= i < c.len() implies match #[trigger] body_msg_id(c[i].body) {
        Some(id) => lo < id <= hi,
        None => true,
    } by {
        if i < a.len() {
            assert(c[i] == a[i]);
        } else {
            assert(c[i] == b[i - a.len()]);
        }
    }
    assert forall|i: int, j: int|
        #![trigger body_msg_id(c[i].body), body_msg_id(c[j].body)]
        0 <= i < j < c.len() implies match (body_msg_id(c[i].body), body_msg_id(c[j].body)) {
        (Some(x), Some(y)) => x < y,
        _ => true,
    } by {
        if i < a.len() {
            assert(c[i] == a[i]);
        } else {
            assert(c[i] == b[i - a.len()]);
        }
        if j < a.len() {
            assert(c[j] == a[j]);
        } else {
            assert(c[j] == b[j - a.len()]);
        }
    }
}

} // verus!
