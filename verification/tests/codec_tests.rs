use maelstrom_node::codec::encode_envelope;
use maelstrom_node::msg::{Body, Envelope};
use maelstrom_node::store::{Store, TxnResult};

fn s(t: &str) -> String {
    t.to_string()
}

#[test]
fn encodes_init_ok() {
    let env = Envelope {
        src: s("n1"),
        dest: s("c1"),
        body: Body::InitOk { msg_id: 1, in_reply_to: 1 },
    };
    let line = encode_envelope(&env).expect("clean");
    assert_eq!(
        line,
        "{\"src\":\"n1\",\"dest\":\"c1\",\"body\":{\"type\":\"init_ok\",\"msg_id\":1,\"in_reply_to\":1}}"
    );
}

#[test]
fn encodes_echo_ok() {
    let env = Envelope {
        src: s("n1"),
        dest: s("c1"),
        body: Body::EchoOk { msg_id: 2, in_reply_to: 2, echo: s("hi") },
    };
    let line = encode_envelope(&env).expect("clean");
    assert_eq!(
        line,
        "{\"src\":\"n1\",\"dest\":\"c1\",\"body\":{\"type\":\"echo_ok\",\"msg_id\":2,\"in_reply_to\":2,\"echo\":\"hi\"}}"
    );
}

#[test]
fn encodes_negative_numbers_and_counts() {
    let env = Envelope {
        src: s("n1"),
        dest: s("n2"),
        body: Body::ReplicateCounts {
            p: vec![(s("n1"), 5), (s("n2"), 0)],
            n: vec![(s("n1"), -2)],
        },
    };
    let line = encode_envelope(&env).expect("clean");
    assert_eq!(
        line,
        "{\"src\":\"n1\",\"dest\":\"n2\",\"body\":{\"type\":\"replicate\",\"msg\":[{\"n1\":5,\"n2\":0},{\"n1\":-2}]}}"
    );
}

#[test]
fn encodes_replicate_set_and_read_ok() {
    let env = Envelope {
        src: s("n1"),
        dest: s("n2"),
        body: Body::ReplicateSet { message: vec![1, 2, 3] },
    };
    let line = encode_envelope(&env).expect("clean");
    assert_eq!(
        line,
        "{\"src\":\"n1\",\"dest\":\"n2\",\"body\":{\"type\":\"replicate\",\"message\":[1,2,3]}}"
    );
    let env = Envelope {
        src: s("n1"),
        dest: s("c1"),
        body: Body::ReadOkSet { in_reply_to: 9, value: vec![] },
    };
    let line = encode_envelope(&env).expect("clean");
    assert_eq!(
        line,
        "{\"src\":\"n1\",\"dest\":\"c1\",\"body\":{\"type\":\"read_ok\",\"in_reply_to\":9,\"value\":[]}}"
    );
}

#[test]
fn encodes_cas_with_store() {
    let from = Store::from_entries(vec![(1, vec![100])]).expect("unique");
    let to = Store::from_entries(vec![(1, vec![100, 200]), (-3, vec![])]).expect("unique");
    let env = Envelope {
        src: s("n1"),
        dest: s("lin-kv"),
        body: Body::KvCas {
            msg_id: 4,
            key: s("root"),
            from,
            to,
            create_if_not_exists: false,
        },
    };
    let line = encode_envelope(&env).expect("clean");
    assert_eq!(
        line,
        "{\"src\":\"n1\",\"dest\":\"lin-kv\",\"body\":{\"type\":\"cas\",\"msg_id\":4,\"key\":\"root\",\"from\":{\"1\":[100]},\"to\":{\"1\":[100,200],\"-3\":[]},\"create_if_not_exists\":false}}"
    );
}

#[test]
fn encodes_txn_ok_with_null_read() {
    let env = Envelope {
        src: s("n1"),
        dest: s("c1"),
        body: Body::TxnOk {
            msg_id: 3,
            in_reply_to: 2,
            txn: vec![
                TxnResult::Append { key: 1, value: 100 },
                TxnResult::Read { key: 1, value: Some(vec![100]) },
                TxnResult::Read { key: 2, value: None },
            ],
        },
    };
    let line = encode_envelope(&env).expect("clean");
    assert_eq!(
        line,
        "{\"src\":\"n1\",\"dest\":\"c1\",\"body\":{\"type\":\"txn_ok\",\"msg_id\":3,\"in_reply_to\":2,\"txn\":[[\"append\",1,100],[\"r\",1,[100]],[\"r\",2,null]]}}"
    );
}

#[test]
fn encodes_error_reply() {
    let env = Envelope {
        src: s("n1"),
        dest: s("c1"),
        body: Body::Error { msg_id: 5, in_reply_to: 4, code: 30, text: s("Cas Conflict") },
    };
    let line = encode_envelope(&env).expect("clean");
    assert_eq!(
        line,
        "{\"src\":\"n1\",\"dest\":\"c1\",\"body\":{\"type\":\"error\",\"msg_id\":5,\"in_reply_to\":4,\"code\":30,\"text\":\"Cas Conflict\"}}"
    );
}

#[test]
fn escapes_quotes_and_backslashes() {
    let env = Envelope {
        src: s("n1"),
        dest: s("c1"),
        body: Body::EchoOk { msg_id: 2, in_reply_to: 2, echo: s("a\"b\\c") },
    };
    let line = encode_envelope(&env).expect("clean");
    assert_eq!(
        line,
        "{\"src\":\"n1\",\"dest\":\"c1\",\"body\":{\"type\":\"echo_ok\",\"msg_id\":2,\"in_reply_to\":2,\"echo\":\"a\\\"b\\\\c\"}}"
    );
}

#[test]
fn refuses_control_characters() {
    let env = Envelope {
        src: s("n1"),
        dest: s("c1"),
        body: Body::EchoOk { msg_id: 2, in_reply_to: 2, echo: s("a\nb") },
    };
    assert!(encode_envelope(&env).is_none());
}

#[test]
fn json_output_round_trips_through_a_parser() {
    let env = Envelope {
        src: s("n1"),
        dest: s("c1"),
        body: Body::EchoOk { msg_id: 2, in_reply_to: 2, echo: s("hi \"there\"") },
    };
    let line = encode_envelope(&env).expect("clean");
    let parsed: serde_json::Value = serde_json::from_str(&line).expect("valid JSON");
    assert_eq!(parsed["src"], "n1");
    assert_eq!(parsed["dest"], "c1");
    assert_eq!(parsed["body"]["type"], "echo_ok");
    assert_eq!(parsed["body"]["msg_id"], 2);
    assert_eq!(parsed["body"]["echo"], "hi \"there\"");
}

#[test]
fn encodes_extreme_numbers() {
    let env = Envelope {
        src: s("n1"),
        dest: s("c1"),
        body: Body::ReadOkCount { in_reply_to: 1, value: i64::MIN },
    };
    let line = encode_envelope(&env).expect("clean");
    assert_eq!(
        line,
        "{\"src\":\"n1\",\"dest\":\"c1\",\"body\":{\"type\":\"read_ok\",\"in_reply_to\":1,\"value\":-9223372036854775808}}"
    );
    let env = Envelope {
        src: s("n1"),
        dest: s("c1"),
        body: Body::ReadOkCount { in_reply_to: 1, value: i64::MAX },
    };
    let line = encode_envelope(&env).expect("clean");
    assert_eq!(
        line,
        "{\"src\":\"n1\",\"dest\":\"c1\",\"body\":{\"type\":\"read_ok\",\"in_reply_to\":1,\"value\":9223372036854775807}}"
    );
}
