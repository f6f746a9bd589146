use maelstrom_node::correlator::Correlator;
use maelstrom_node::msg::Body;
use maelstrom_node::store::{Store, TxnOp, TxnResult, run_transactions};
use maelstrom_node::txn::{KvNode, TxnNode};
use maelstrom_node::CAS_CONFLICT;

fn s(t: &str) -> String {
    t.to_string()
}

#[test]
fn store_append_and_get() {
    let mut st = Store::new();
    st.append(1, 100);
    st.append(1, 200);
    st.append(2, 5);
    assert_eq!(st.get(1), Some(&vec![100, 200]));
    assert_eq!(st.get(2), Some(&vec![5]));
    assert_eq!(st.get(3), None);
}

#[test]
fn store_from_entries_rejects_duplicate_keys() {
    assert!(Store::from_entries(vec![(1, vec![5]), (1, vec![6])]).is_none());
    let st = Store::from_entries(vec![(1, vec![5]), (2, vec![6])]).expect("unique keys");
    assert_eq!(st.get(1), Some(&vec![5]));
}

#[test]
fn run_transactions_records_each_op() {
    let st = Store::new();
    let ops = vec![
        TxnOp::Append { key: 1, value: 100 },
        TxnOp::Append { key: 1, value: 200 },
        TxnOp::Read { key: 1 },
        TxnOp::Read { key: 2 },
    ];
    let (st2, results) = run_transactions(st, &ops);
    assert_eq!(results.len(), 4);
    match &results[2] {
        TxnResult::Read { key, value } => {
            assert_eq!(*key, 1);
            assert_eq!(value.as_ref().expect("key 1 exists"), &vec![100, 200]);
        }
        _ => panic!("expected a read result"),
    }
    match &results[3] {
        TxnResult::Read { key, value } => {
            assert_eq!(*key, 2);
            assert!(value.is_none());
        }
        _ => panic!("expected a read result"),
    }
    assert_eq!(st2.get(1), Some(&vec![100, 200]));
}

#[test]
fn single_node_txn() {
    let (mut node, _) = KvNode::init(s("n1"), &s("c1"), 1);
    let ops = vec![
        TxnOp::Append { key: 1, value: 100 },
        TxnOp::Append { key: 1, value: 200 },
        TxnOp::Read { key: 1 },
    ];
    let reply = node.handle_txn(&s("c1"), 2, &ops);
    match reply.body {
        Body::TxnOk { in_reply_to, txn, .. } => {
            assert_eq!(in_reply_to, 2);
            assert_eq!(txn.len(), 3);
            match &txn[0] {
                TxnResult::Append { key, value } => {
                    assert_eq!((*key, *value), (1, 100));
                }
                _ => panic!("expected an append result"),
            }
            match &txn[2] {
                TxnResult::Read { key, value } => {
                    assert_eq!(*key, 1);
                    assert_eq!(value.as_ref().expect("key 1 exists"), &vec![100, 200]);
                }
                _ => panic!("expected a read result"),
            }
        }
        _ => panic!("expected txn_ok"),
    }
    // A later read of an untouched key reports nothing.
    let reply = node.handle_txn(&s("c1"), 3, &vec![TxnOp::Read { key: 2 }]);
    match reply.body {
        Body::TxnOk { txn, .. } => match &txn[0] {
            TxnResult::Read { key, value } => {
                assert_eq!(*key, 2);
                assert!(value.is_none());
            }
            _ => panic!("expected a read result"),
        },
        _ => panic!("expected txn_ok"),
    }
}

#[test]
fn txn_node_init_creates_register() {
    let (node, ok, create) = TxnNode::init(s("n1"), &s("c0"), 1);
    assert_eq!(node.next_msg_id, 2);
    match ok.body {
        Body::InitOk { msg_id, in_reply_to } => {
            assert_eq!(msg_id, 1);
            assert_eq!(in_reply_to, 1);
        }
        _ => panic!("expected init_ok"),
    }
    assert_eq!(create.dest, "lin-kv");
    match create.body {
        Body::KvCas { msg_id, key, from, to, create_if_not_exists } => {
            assert_eq!(msg_id, 2);
            assert_eq!(key, "root");
            assert!(from.entries.is_empty());
            assert!(to.entries.is_empty());
            assert!(create_if_not_exists);
        }
        _ => panic!("expected cas"),
    }
}

#[test]
fn cas_txn_conflict() {
    let (mut node, _, _) = TxnNode::init(s("n1"), &s("c0"), 1);
    // Two concurrent transactions, each with its own read round trip.
    let (read1, rid1) = node.read_request();
    match read1.body {
        Body::KvRead { msg_id, key } => {
            assert_eq!(msg_id, rid1);
            assert_eq!(key, "root");
        }
        _ => panic!("expected read"),
    }
    let (_read2, rid2) = node.read_request();
    assert!(rid2 > rid1);
    // Both observe the same register snapshot.
    let snapshot1 = Store::from_entries(vec![(1, vec![100])]).expect("unique");
    let snapshot2 = Store::from_entries(vec![(1, vec![100])]).expect("unique");
    assert!(node.deliver(rid1));
    node.finish_wait(rid1);
    assert!(node.deliver(rid2));
    node.finish_wait(rid2);
    let ops1 = vec![TxnOp::Append { key: 1, value: 200 }];
    let ops2 = vec![TxnOp::Append { key: 1, value: 300 }];
    let (cas1, cid1, results1) = node.transact_round(snapshot1, &ops1);
    let (_cas2, cid2, results2) = node.transact_round(snapshot2, &ops2);
    match cas1.body {
        Body::KvCas { from, to, create_if_not_exists, .. } => {
            assert_eq!(from.get(1), Some(&vec![100]));
            assert_eq!(to.get(1), Some(&vec![100, 200]));
            assert!(!create_if_not_exists);
        }
        _ => panic!("expected cas"),
    }
    // The register accepts the first swap and refuses the second.
    assert!(node.deliver(cid1));
    node.finish_wait(cid1);
    let ok = node.reply_to_transaction(&s("c1"), 50, true, results1);
    match ok.body {
        Body::TxnOk { in_reply_to, txn, .. } => {
            assert_eq!(in_reply_to, 50);
            assert_eq!(txn.len(), 1);
        }
        _ => panic!("expected txn_ok"),
    }
    assert!(node.deliver(cid2));
    node.finish_wait(cid2);
    let refused = node.reply_to_transaction(&s("c2"), 60, false, results2);
    match refused.body {
        Body::Error { in_reply_to, code, text, .. } => {
            assert_eq!(in_reply_to, 60);
            assert_eq!(code, CAS_CONFLICT);
            assert_eq!(text, "Cas Conflict");
        }
        _ => panic!("expected error"),
    }
}

#[test]
fn correlator_delivers_once() {
    let mut c = Correlator::new();
    assert!(c.register(7));
    assert!(!c.register(7));
    assert!(c.deliver(7));
    assert!(!c.deliver(7));
    assert!(!c.contains(7));
}

#[test]
fn correlator_drops_unawaited_replies() {
    let mut c = Correlator::new();
    assert!(c.register(1));
    assert!(!c.deliver(2));
    assert!(c.contains(1));
    c.unregister(1);
    assert!(!c.contains(1));
}
