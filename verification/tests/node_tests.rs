use maelstrom_node::broadcast::BroadcastNode;
use maelstrom_node::gset::GSetNode;
use maelstrom_node::msg::Body;
use maelstrom_node::pn::PnNode;

fn s(t: &str) -> String {
    t.to_string()
}

#[test]
fn init_and_echo() {
    let (mut node, reply) = GSetNode::init(s("n1"), vec![s("n1")], &s("c1"), 1);
    assert_eq!(reply.src, "n1");
    assert_eq!(reply.dest, "c1");
    match reply.body {
        Body::InitOk { msg_id, in_reply_to } => {
            assert_eq!(msg_id, 1);
            assert_eq!(in_reply_to, 1);
        }
        _ => panic!("expected init_ok"),
    }
    let echo = node.handle_echo(&s("c1"), 2, s("hi"));
    assert_eq!(echo.src, "n1");
    assert_eq!(echo.dest, "c1");
    match echo.body {
        Body::EchoOk { msg_id, in_reply_to, echo } => {
            assert_eq!(msg_id, 2);
            assert_eq!(in_reply_to, 2);
            assert_eq!(echo, "hi");
        }
        _ => panic!("expected echo_ok"),
    }
}

#[test]
fn gset_add_replicate_read() {
    let (mut n1, _) = GSetNode::init(s("n1"), vec![s("n1"), s("n2")], &s("c1"), 1);
    let (mut n2, _) = GSetNode::init(s("n2"), vec![s("n1"), s("n2")], &s("c1"), 1);
    let r1 = n1.handle_add(&s("c1"), 2, 1);
    match r1.body {
        Body::AddOk { msg_id, in_reply_to } => {
            assert_eq!(msg_id, 2);
            assert_eq!(in_reply_to, 2);
        }
        _ => panic!("expected add_ok"),
    }
    n1.handle_add(&s("c1"), 3, 2);
    n2.handle_add(&s("c2"), 2, 1);
    // One gossip round in each direction.
    let g1 = n1.gossip_message(&s("n2"));
    match g1.body {
        Body::ReplicateSet { message } => n2.handle_replicate(&message),
        _ => panic!("expected replicate"),
    }
    let g2 = n2.gossip_message(&s("n1"));
    match g2.body {
        Body::ReplicateSet { message } => n1.handle_replicate(&message),
        _ => panic!("expected replicate"),
    }
    let read1 = n1.handle_read(&s("c1"), 9);
    match read1.body {
        Body::ReadOkSet { in_reply_to, value } => {
            assert_eq!(in_reply_to, 9);
            let mut sorted = value.clone();
            sorted.sort();
            assert_eq!(sorted, vec![1, 2]);
        }
        _ => panic!("expected read_ok"),
    }
    let read2 = n2.handle_read(&s("c2"), 9);
    match read2.body {
        Body::ReadOkSet { in_reply_to, value } => {
            assert_eq!(in_reply_to, 9);
            let mut sorted = value.clone();
            sorted.sort();
            assert_eq!(sorted, vec![1, 2]);
        }
        _ => panic!("expected read_ok"),
    }
}

#[test]
fn msg_ids_increase_across_handlers() {
    let (mut n1, reply) = GSetNode::init(s("n1"), vec![s("n1")], &s("c1"), 1);
    let id0 = match reply.body {
        Body::InitOk { msg_id, .. } => msg_id,
        _ => panic!("expected init_ok"),
    };
    let id1 = match n1.handle_add(&s("c1"), 7, 5).body {
        Body::AddOk { msg_id, .. } => msg_id,
        _ => panic!("expected add_ok"),
    };
    let id2 = match n1.handle_echo(&s("c1"), 8, s("x")).body {
        Body::EchoOk { msg_id, .. } => msg_id,
        _ => panic!("expected echo_ok"),
    };
    let id3 = match n1.handle_topology(&s("c1"), 9, vec![]).body {
        Body::TopologyOk { msg_id, .. } => msg_id,
        _ => panic!("expected topology_ok"),
    };
    assert!(id0 < id1 && id1 < id2 && id2 < id3);
}

#[test]
fn gset_elements_only_grow() {
    let (mut n1, _) = GSetNode::init(s("n1"), vec![s("n1")], &s("c1"), 1);
    n1.handle_add(&s("c1"), 2, 4);
    let earlier = n1.elements.clone();
    n1.handle_add(&s("c1"), 3, 9);
    n1.handle_replicate(&vec![1, 4]);
    for x in earlier {
        assert!(n1.elements.contains(&x));
    }
}

#[test]
fn gset_add_is_idempotent() {
    let (mut n1, _) = GSetNode::init(s("n1"), vec![s("n1")], &s("c1"), 1);
    n1.handle_add(&s("c1"), 2, 7);
    n1.handle_add(&s("c1"), 3, 7);
    assert_eq!(n1.elements, vec![7]);
    n1.handle_replicate(&vec![7, 7, 8]);
    assert_eq!(n1.elements, vec![7, 8]);
}

#[test]
fn gset_topology_replaces_peers() {
    let (mut n1, _) = GSetNode::init(s("n1"), vec![s("n1"), s("n2"), s("n3")], &s("c1"), 1);
    let reply = n1.handle_topology(&s("c1"), 5, vec![s("n2")]);
    match reply.body {
        Body::TopologyOk { msg_id, in_reply_to } => {
            assert_eq!(msg_id, 2);
            assert_eq!(in_reply_to, 5);
        }
        _ => panic!("expected topology_ok"),
    }
    assert_eq!(n1.neighbours, vec![s("n2")]);
}

#[test]
fn pn_counter_adds_and_gossip() {
    let cluster = vec![s("n1"), s("n2")];
    let (mut n1, _) = PnNode::init(s("n1"), cluster.clone(), &s("c1"), 1);
    let (mut n2, _) = PnNode::init(s("n2"), cluster, &s("c1"), 1);
    let a1 = n1.handle_add(&s("c1"), 2, 5);
    match a1.body {
        Body::AddOk { msg_id, in_reply_to } => {
            assert_eq!(msg_id, 2);
            assert_eq!(in_reply_to, 2);
        }
        _ => panic!("expected add_ok"),
    }
    n1.handle_add(&s("c1"), 3, -2);
    n2.handle_add(&s("c2"), 2, 3);
    // One gossip round in each direction.
    let g1 = n1.gossip_message(&s("n2"));
    match g1.body {
        Body::ReplicateCounts { p, n } => n2.handle_replicate(&p, &n),
        _ => panic!("expected replicate"),
    }
    let g2 = n2.gossip_message(&s("n1"));
    match g2.body {
        Body::ReplicateCounts { p, n } => n1.handle_replicate(&p, &n),
        _ => panic!("expected replicate"),
    }
    let r1 = n1.handle_read(&s("c1"), 9);
    match r1.body {
        Body::ReadOkCount { in_reply_to, value } => {
            assert_eq!(in_reply_to, 9);
            assert_eq!(value, 6);
        }
        _ => panic!("expected read_ok"),
    }
    let r2 = n2.handle_read(&s("c2"), 9);
    match r2.body {
        Body::ReadOkCount { in_reply_to, value } => {
            assert_eq!(in_reply_to, 9);
            assert_eq!(value, 6);
        }
        _ => panic!("expected read_ok"),
    }
}

#[test]
fn pn_gossip_is_idempotent() {
    let (mut n1, _) = PnNode::init(s("n1"), vec![s("n1")], &s("c1"), 1);
    n1.handle_add(&s("c1"), 2, 5);
    let before = n1.handle_read(&s("c1"), 3);
    let own = n1.gossip_message(&s("n1"));
    match own.body {
        Body::ReplicateCounts { p, n } => n1.handle_replicate(&p, &n),
        _ => panic!("expected replicate"),
    }
    let after = n1.handle_read(&s("c1"), 4);
    match (before.body, after.body) {
        (
            Body::ReadOkCount { value: v1, .. },
            Body::ReadOkCount { value: v2, .. },
        ) => {
            assert_eq!(v1, 5);
            assert_eq!(v2, 5);
        }
        _ => panic!("expected read_ok"),
    }
}

#[test]
fn pn_stale_gossip_is_absorbed() {
    let (mut n1, _) = PnNode::init(s("n1"), vec![s("n1"), s("n2")], &s("c1"), 1);
    n1.handle_add(&s("c1"), 2, 10);
    // A stale vector claiming less than what is held must not lower it.
    n1.handle_replicate(&vec![(s("n1"), 4)], &vec![(s("n1"), 0)]);
    let r = n1.handle_read(&s("c1"), 3);
    match r.body {
        Body::ReadOkCount { value, .. } => assert_eq!(value, 10),
        _ => panic!("expected read_ok"),
    }
}

#[test]
fn broadcast_two_nodes() {
    let cluster = vec![s("n1"), s("n2")];
    let (mut n1, _) = BroadcastNode::init(s("n1"), cluster.clone(), &s("c1"), 1);
    let (mut n2, _) = BroadcastNode::init(s("n2"), cluster, &s("c1"), 1);
    n1.handle_topology(&s("c1"), 2, vec![s("n2")]);
    n2.handle_topology(&s("c1"), 2, vec![s("n1")]);
    // A client broadcasts 7 to n1.
    let (reply, targets) = n1.handle_broadcast(&s("c1"), Some(10), 7);
    match reply.expect("client broadcast must be acknowledged").body {
        Body::BroadcastOk { in_reply_to, .. } => assert_eq!(in_reply_to, 10),
        _ => panic!("expected broadcast_ok"),
    }
    assert_eq!(targets, vec![s("n2")]);
    // n1's retransmitter carries the value to n2, which acknowledges.
    let (env, k) = n1.start_retransmit(&s("n2"), 7);
    assert!(!n1.acked(k));
    let (msg_id, message) = match env.body {
        Body::Broadcast { msg_id, message } => (msg_id, message),
        _ => panic!("expected broadcast"),
    };
    assert_eq!(msg_id, k);
    assert_eq!(message, 7);
    let (ack, peer_targets) = n2.handle_broadcast(&s("n1"), Some(k), 7);
    // n2's fan-out skips the immediate sender, its only neighbour.
    assert_eq!(peer_targets, Vec::<String>::new());
    let ack = ack.expect("peer broadcast carries an id and is acknowledged");
    match ack.body {
        Body::BroadcastOk { in_reply_to, .. } => {
            n1.handle_broadcast_ok(in_reply_to);
        }
        _ => panic!("expected broadcast_ok"),
    }
    assert!(n1.acked(k));
    // Both logs read [7].
    let r1 = n1.handle_read(&s("c1"), 20);
    match r1.body {
        Body::ReadOkMessages { in_reply_to, messages } => {
            assert_eq!(in_reply_to, 20);
            assert_eq!(messages, vec![7]);
        }
        _ => panic!("expected read_ok"),
    }
    let r2 = n2.handle_read(&s("c1"), 21);
    match r2.body {
        Body::ReadOkMessages { messages, .. } => assert_eq!(messages, vec![7]),
        _ => panic!("expected read_ok"),
    }
}

#[test]
fn broadcast_seen_value_is_not_fanned_out() {
    let (mut n1, _) = BroadcastNode::init(s("n1"), vec![s("n1"), s("n2")], &s("c1"), 1);
    n1.handle_broadcast(&s("c1"), Some(1), 7);
    let (reply, targets) = n1.handle_broadcast(&s("n2"), Some(5), 7);
    assert!(reply.is_some());
    assert_eq!(targets, Vec::<String>::new());
    assert_eq!(n1.log, vec![7]);
}

#[test]
fn broadcast_peer_rebroadcast_without_id_gets_no_reply() {
    let (mut n1, _) = BroadcastNode::init(s("n1"), vec![s("n1")], &s("c1"), 1);
    let (reply, _) = n1.handle_broadcast(&s("n2"), None, 3);
    assert!(reply.is_none());
    assert_eq!(n1.log, vec![3]);
}
