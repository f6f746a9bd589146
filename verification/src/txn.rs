//! The CAS-serialized transaction workload: each transaction is an
//! optimistic read-modify-write against one remote linearizable register.
//! The node reads the register, applies the operations to a copy, and asks
//! the register to move from the value read to the value computed; a
//! conflict is reported to the client as an error, never retried here.

use vstd::prelude::*;
use vstd::string::StringExecFns;
use crate::CAS_CONFLICT;
use crate::correlator::{Correlator, deliver_hits, delivered_set};
use crate::msg::{Body, Envelope};
use crate::store::{Store, TxnOp, TxnResult, results_view, run_transactions, store_after, txn_results};

verus! {

/// A transaction node: identity, the id counter, and the set of request
/// ids whose replies from the key/value service are awaited.
pub struct TxnNode {
    pub id: String,
    pub next_msg_id: i64,
    pub pending: Correlator,
}

impl TxnNode {
    /// Structural invariant: the correlator is duplicate-free and only
    /// holds ids this node has already allocated, so a fresh id can
    /// always be registered.
    pub open spec fn wf(self) -> bool {
        &&& self.pending.wf()
        &&& forall|x: i64| #[trigger] self.pending.pending_set().contains(x) ==> x <= self.next_msg_id
    }

    /// A bare node with nothing sent and nothing awaited.
    pub fn new(id: String) -> (r: TxnNode)
        ensures
            r.wf(),
            r.id@ == id@,
            r.next_msg_id == 0,
            r.pending.pending_set() == Set::<i64>::empty(),
    {
        TxnNode { id, next_msg_id: 0, pending: Correlator::new() }
    }

    /// Builds the node named by `init`, its `init_ok` reply, and the
    /// opening `cas` that creates the remote register with an empty store
    /// if it does not exist yet.
    pub fn init(id: String, src: &String, msg_id: i64) -> (r: (TxnNode, Envelope, Envelope))
        ensures
            r.0.wf(),
            r.0.id@ == id@,
            r.0.next_msg_id == 2,
            r.0.pending.pending_set() == Set::<i64>::empty(),
            r.1.src@ == id@,
            r.1.dest@ == src@,
            r.1.body == (Body::InitOk { msg_id: 1, in_reply_to: msg_id }),
            r.2.src@ == id@,
            r.2.dest@ == "lin-kv"@,
            r.2.body matches Body::KvCas { msg_id: mid, key, from, to, create_if_not_exists }
                && mid == 2 && key@ == "root"@ && from.as_map() == Map::<i64, Seq<i64>>::empty()
                && to.as_map() == Map::<i64, Seq<i64>>::empty() && create_if_not_exists,
    {
        let node = TxnNode { id: id.clone(), next_msg_id: 2, pending: Correlator::new() };
        let ok = Envelope {
            src: id.clone(),
            dest: src.clone(),
            body: Body::InitOk { msg_id: 1, in_reply_to: msg_id },
        };
        let create = Envelope {
            src: id,
            dest: String::from_str("lin-kv"),
            body: Body::KvCas {
                msg_id: 2,
                key: String::from_str("root"),
                from: Store::new(),
                to: Store::new(),
                create_if_not_exists: true,
            },
        };
        (node, ok, create)
    }

    /// Allocates a fresh id, registers a slot for the reply, and builds
    /// the `read` of the remote register.  The caller sends the envelope,
    /// waits on the slot, and must `finish_wait` on every exit path.
    pub fn read_request(&mut self) -> (r: (Envelope, i64))
        requires
            old(self).wf(),
            old(self).next_msg_id < i64::MAX,
        ensures
            final(self).wf(),
            final(self).id == old(self).id,
            r.1 == old(self).next_msg_id + 1,
            final(self).next_msg_id == r.1,
            final(self).pending.pending_set() == old(self).pending.pending_set().insert(r.1),
            r.0.src@ == old(self).id@,
            r.0.dest@ == "lin-kv"@,
            r.0.body matches Body::KvRead { msg_id, key } && msg_id == r.1 && key@ == "root"@,
    {
        self.next_msg_id = self.next_msg_id + 1;
        let wait_key = self.next_msg_id;
        let fresh = self.pending.register(wait_key);
        proof {
            assert(fresh);
        }
        let env = Envelope {
            src: self.id.clone(),
            dest: String::from_str("lin-kv"),
            body: Body::KvRead { msg_id: wait_key, key: String::from_str("root") },
        };
        (env, wait_key)
    }

    /// Allocates a fresh id, registers a slot, and builds the `cas` that
    /// asks the register to move from `from` to `to`, without creation.
    pub fn cas_request(&mut self, from: Store, to: Store) -> (r: (Envelope, i64))
        requires
            old(self).wf(),
            old(self).next_msg_id < i64::MAX,
        ensures
            final(self).wf(),
            final(self).id == old(self).id,
            r.1 == old(self).next_msg_id + 1,
            final(self).next_msg_id == r.1,
            final(self).pending.pending_set() == old(self).pending.pending_set().insert(r.1),
            r.0.src@ == old(self).id@,
            r.0.dest@ == "lin-kv"@,
            r.0.body matches Body::KvCas { msg_id, key, from: f, to: t, create_if_not_exists }
                && msg_id == r.1 && key@ == "root"@ && f == from && t == to
                && !create_if_not_exists,
    {
        self.next_msg_id = self.next_msg_id + 1;
        let wait_key = self.next_msg_id;
        let fresh = self.pending.register(wait_key);
        proof {
            assert(fresh);
        }
        let env = Envelope {
            src: self.id.clone(),
            dest: String::from_str("lin-kv"),
            body: Body::KvCas {
                msg_id: wait_key,
                key: String::from_str("root"),
                from,
                to,
                create_if_not_exists: false,
            },
        };
        (env, wait_key)
    }

    /// Routes an inbound reply from the key/value service: consumes the
    /// slot registered under its `in_reply_to`, if one is awaited, and
    /// reports whether it was.  A reply nobody awaits is dropped.
    pub fn deliver(&mut self, in_reply_to: i64) -> (hit: bool)
        requires
            old(self).wf(),
        ensures
            final(self).wf(),
            final(self).id == old(self).id,
            final(self).next_msg_id == old(self).next_msg_id,
            hit == deliver_hits(old(self).pending.pending_set(), in_reply_to),
            final(self).pending.pending_set() == delivered_set(
                old(self).pending.pending_set(),
                in_reply_to,
            ),
    {
        self.pending.deliver(in_reply_to)
    }

    /// Releases a waiter's slot on its exit path, reply or timeout.
    pub fn finish_wait(&mut self, wait_key: i64)
        requires
            old(self).wf(),
        ensures
            final(self).wf(),
            final(self).id == old(self).id,
            final(self).next_msg_id == old(self).next_msg_id,
            final(self).pending.pending_set() == delivered_set(
                old(self).pending.pending_set(),
                wait_key,
            ),
    {
        self.pending.unregister(wait_key);
    }

    /// The middle of a transaction, between the two round trips: applies
    /// the operations to the snapshot the register returned and builds the
    /// `cas` from that snapshot to the computed store.  The recorded
    /// results are exactly the operations' outcomes on the snapshot.
    pub fn transact_round(&mut self, before: Store, ops: &Vec<TxnOp>) -> (r: (
        Envelope,
        i64,
        Vec<TxnResult>,
    ))
        requires
            old(self).wf(),
            before.wf(),
            old(self).next_msg_id < i64::MAX,
        ensures
            final(self).wf(),
            final(self).id == old(self).id,
            r.1 == old(self).next_msg_id + 1,
            final(self).next_msg_id == r.1,
            final(self).pending.pending_set() == old(self).pending.pending_set().insert(r.1),
            results_view(r.2@) == txn_results(before.as_map(), ops@),
            r.2@.len() == ops@.len(),
            r.0.src@ == old(self).id@,
            r.0.dest@ == "lin-kv"@,
            r.0.body matches Body::KvCas { msg_id, key, from, to, create_if_not_exists }
                && msg_id == r.1 && key@ == "root"@ && from.as_map() == before.as_map()
                && to.as_map() == store_after(before.as_map(), ops@) && !create_if_not_exists,
    {
        let from = before.duplicate();
        let (after, results) = run_transactions(before, ops);
        let (env, wait_key) = self.cas_request(from, after);
        (env, wait_key, results)
    }

    /// The reply a finished transaction sends its client: `txn_ok` with
    /// the recorded results when the register accepted the swap, or the
    /// conflict error when it refused.
    pub fn reply_to_transaction(
        &mut self,
        dest: &String,
        incoming_id: i64,
        completed: bool,
        results: Vec<TxnResult>,
    ) -> (r: Envelope)
        requires
            old(self).wf(),
            old(self).next_msg_id < i64::MAX,
        ensures
            final(self).wf(),
            final(self).id == old(self).id,
            final(self).next_msg_id == old(self).next_msg_id + 1,
            final(self).pending == old(self).pending,
            r.src@ == old(self).id@,
            r.dest@ == dest@,
            completed ==> (r.body matches Body::TxnOk { msg_id, in_reply_to, txn } && msg_id
                == final(self).next_msg_id && in_reply_to == incoming_id && txn == results),
            !completed ==> (r.body matches Body::Error { msg_id, in_reply_to, code, text } && msg_id
                == final(self).next_msg_id && in_reply_to == incoming_id && code == CAS_CONFLICT
                && text@ == "Cas Conflict"@),
    {
        self.next_msg_id = self.next_msg_id + 1;
        let body = if completed {
            Body::TxnOk { msg_id: self.next_msg_id, in_reply_to: incoming_id, txn: results }
        } else {
            Body::Error {
                msg_id: self.next_msg_id,
                in_reply_to: incoming_id,
                code: CAS_CONFLICT,
                text: String::from_str("Cas Conflict"),
            }
        };
        Envelope { src: self.id.clone(), dest: dest.clone(), body }
    }
}

/// A single-node transaction store: the whole key/value mapping lives in
/// the node, and transactions run serially against it.
pub struct KvNode {
    pub id: String,
    pub next_msg_id: i64,
    pub kv: Store,
}

impl KvNode {
    /// Structural invariant: the store's keys are unique.
    pub open spec fn wf(self) -> bool {
        self.kv.wf()
    }

    /// Builds the node named by `init` and its `init_ok` reply, with an
    /// empty store.
    pub fn init(id: String, src: &String, msg_id: i64) -> (r: (KvNode, Envelope))
        ensures
            r.0.wf(),
            r.0.id@ == id@,
            r.0.next_msg_id == 1,
            r.0.kv.as_map() == Map::<i64, Seq<i64>>::empty(),
            r.1.src@ == id@,
            r.1.dest@ == src@,
            r.1.body == (Body::InitOk { msg_id: 1, in_reply_to: msg_id }),
    {
        let node = KvNode { id: id.clone(), next_msg_id: 1, kv: Store::new() };
        let env = Envelope {
            src: id,
            dest: src.clone(),
            body: Body::InitOk { msg_id: 1, in_reply_to: msg_id },
        };
        (node, env)
    }

    /// Runs one transaction's operations, in order, against the node's
    /// store, and answers `txn_ok` with the per-operation results: each
    /// append is echoed, each read reports the history the preceding
    /// operations left under its key, or nothing for an absent key.
    pub fn handle_txn(&mut self, src: &String, msg_id: i64, ops: &Vec<TxnOp>) -> (r: Envelope)
        requires
            old(self).wf(),
            old(self).next_msg_id < i64::MAX,
        ensures
            final(self).wf(),
            final(self).id == old(self).id,
            final(self).next_msg_id == old(self).next_msg_id + 1,
            final(self).kv.as_map() == store_after(old(self).kv.as_map(), ops@),
            r.src@ == old(self).id@,
            r.dest@ == src@,
            r.body matches Body::TxnOk { msg_id: mid, in_reply_to, txn }
                && mid == old(self).next_msg_id + 1 && in_reply_to == msg_id
                && results_view(txn@) == txn_results(old(self).kv.as_map(), ops@),
    {
        let cur = self.kv.duplicate();
        let (next, results) = run_transactions(cur, ops);
        self.kv = next;
        self.next_msg_id = self.next_msg_id + 1;
        Envelope {
            src: self.id.clone(),
            dest: src.clone(),
            body: Body::TxnOk { msg_id: self.next_msg_id, in_reply_to: msg_id, txn: results },
        }
    }
}

} // verus!
