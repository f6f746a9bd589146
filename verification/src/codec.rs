//! Framing outbound envelopes as JSON text: one object per line, with the
//! body nested under `"body"`.  The encoding is specified character by
//! character; texts are escaped, and a text holding a control character is
//! refused rather than framed wrongly.

use vstd::prelude::*;
use vstd::string::{StrSliceExecFns, StringExecFns};
use crate::msg::{Body, Envelope};
use crate::store::{Store, TxnResult};

verus! {

/// The decimal digits of `n`, most significant first.
pub open spec fn dec_digits(n: nat) -> Seq<char>
    decreases n,
{
    if n < 10 {
        digit_rep(n)
    } else {
        dec_digits(n / 10) + digit_rep(n % 10)
    }
}

/// One digit's character.
pub open spec fn digit_rep(d: nat) -> Seq<char> {
    if d == 0 {
        "0"@
    } else if d == 1 {
        "1"@
    } else if d == 2 {
        "2"@
    } else if d == 3 {
        "3"@
    } else if d == 4 {
        "4"@
    } else if d == 5 {
        "5"@
    } else if d == 6 {
        "6"@
    } else if d == 7 {
        "7"@
    } else if d == 8 {
        "8"@
    } else {
        "9"@
    }
}

/// A signed number's characters: a minus sign before the magnitude.
pub open spec fn int_chars(n: int) -> Seq<char> {
    if n < 0 {
        "-"@ + dec_digits((-n) as nat)
    } else {
        dec_digits(n as nat)
    }
}

/// How one character appears inside a JSON string: quotes and backslashes
/// take an escape, everything else stands as itself.
pub open spec fn esc_char(c: char) -> Seq<char> {
    if c == '"' {
        "\\\""@
    } else if c == '\\' {
        "\\\\"@
    } else {
        seq![c]
    }
}

/// A text with each character escaped.
pub open spec fn esc(s: Seq<char>) -> Seq<char>
    decreases s.len(),
{
    if s.len() == 0 {
        Seq::empty()
    } else {
        esc(s.drop_last()) + esc_char(s.last())
    }
}

/// A JSON string: the escaped text between quotes.
pub open spec fn json_string(s: Seq<char>) -> Seq<char> {
    "\""@ + esc(s) + "\""@
}

/// A text the encoder accepts: control characters have no single-character
/// representation and are refused.
pub open spec fn text_clean(s: Seq<char>) -> bool {
    forall|i: int| 0 <= i < s.len() ==> (s[i] as u32) >= 0x20
}

/// The comma-separated numbers of a list.
pub open spec fn int_items(xs: Seq<i64>) -> Seq<char>
    decreases xs.len(),
{
    if xs.len() == 0 {
        Seq::empty()
    } else if xs.len() == 1 {
        int_chars(xs[0] as int)
    } else {
        int_items(xs.drop_last()) + ","@ + int_chars(xs.last() as int)
    }
}

/// A JSON array of numbers.
pub open spec fn int_list(xs: Seq<i64>) -> Seq<char> {
    "["@ + int_items(xs) + "]"@
}

/// One count entry, `"id":n`.
pub open spec fn count_item(e: (String, i64)) -> Seq<char> {
    json_string(e.0@) + ":"@ + int_chars(e.1 as int)
}

/// The comma-separated entries of a count vector.
pub open spec fn count_items(s: Seq<(String, i64)>) -> Seq<char>
    decreases s.len(),
{
    if s.len() == 0 {
        Seq::empty()
    } else if s.len() == 1 {
        count_item(s[0])
    } else {
        count_items(s.drop_last()) + ","@ + count_item(s.last())
    }
}

/// A count vector as a JSON object.
pub open spec fn counts_obj(s: Seq<(String, i64)>) -> Seq<char> {
    "{"@ + count_items(s) + "}"@
}

/// Every id in a count vector is an acceptable text.
pub open spec fn counts_clean(s: Seq<(String, i64)>) -> bool {
    forall|i: int| 0 <= i < s.len() ==> text_clean((#[trigger] s[i]).0@)
}

/// One store entry, `"key":[values]`; JSON object keys are strings, so
/// the number is quoted.
pub open spec fn store_item(e: (i64, Vec<i64>)) -> Seq<char> {
    "\""@ + int_chars(e.0 as int) + "\""@ + ":"@ + int_list(e.1@)
}

/// The comma-separated entries of a store.
pub open spec fn store_items(s: Seq<(i64, Vec<i64>)>) -> Seq<char>
    decreases s.len(),
{
    if s.len() == 0 {
        Seq::empty()
    } else if s.len() == 1 {
        store_item(s[0])
    } else {
        store_items(s.drop_last()) + ","@ + store_item(s.last())
    }
}

/// A store as a JSON object.
pub open spec fn store_obj(st: Store) -> Seq<char> {
    "{"@ + store_items(st.entries@) + "}"@
}

/// One recorded operation result as the wire triple.
pub open spec fn result_chars(t: TxnResult) -> Seq<char> {
    match t {
        TxnResult::Append { key, value } => "[\"append\","@ + int_chars(key as int) + ","@
            + int_chars(value as int) + "]"@,
        TxnResult::Read { key, value } => "[\"r\","@ + int_chars(key as int) + ","@ + (match value {
            Some(v) => int_list(v@),
            None => "null"@,
        }) + "]"@,
    }
}

/// The comma-separated results of a transaction.
pub open spec fn result_items(s: Seq<TxnResult>) -> Seq<char>
    decreases s.len(),
{
    if s.len() == 0 {
        Seq::empty()
    } else if s.len() == 1 {
        result_chars(s[0])
    } else {
        result_items(s.drop_last()) + ","@ + result_chars(s.last())
    }
}

/// A transaction's result list as a JSON array.
pub open spec fn result_list(s: Seq<TxnResult>) -> Seq<char> {
    "["@ + result_items(s) + "]"@
}

/// The characters of one body, `type` first.
pub open spec fn body_chars(b: Body) -> Seq<char> {
    match b {
        Body::InitOk { msg_id, in_reply_to } => "{\"type\":\"init_ok\",\"msg_id\":"@ + int_chars(
            msg_id as int,
        ) + ",\"in_reply_to\":"@ + int_chars(in_reply_to as int) + "}"@,
        Body::EchoOk { msg_id, in_reply_to, echo } => "{\"type\":\"echo_ok\",\"msg_id\":"@
            + int_chars(msg_id as int) + ",\"in_reply_to\":"@ + int_chars(in_reply_to as int)
            + ",\"echo\":"@ + json_string(echo@) + "}"@,
        Body::TopologyOk { msg_id, in_reply_to } => "{\"type\":\"topology_ok\",\"msg_id\":"@
            + int_chars(msg_id as int) + ",\"in_reply_to\":"@ + int_chars(in_reply_to as int)
            + "}"@,
        Body::AddOk { msg_id, in_reply_to } => "{\"type\":\"add_ok\",\"msg_id\":"@ + int_chars(
            msg_id as int,
        ) + ",\"in_reply_to\":"@ + int_chars(in_reply_to as int) + "}"@,
        Body::ReadOkSet { in_reply_to, value } => "{\"type\":\"read_ok\",\"in_reply_to\":"@
            + int_chars(in_reply_to as int) + ",\"value\":"@ + int_list(value@) + "}"@,
        Body::ReadOkCount { in_reply_to, value } => "{\"type\":\"read_ok\",\"in_reply_to\":"@
            + int_chars(in_reply_to as int) + ",\"value\":"@ + int_chars(value as int) + "}"@,
        Body::ReadOkMessages { in_reply_to, messages } => "{\"type\":\"read_ok\",\"in_reply_to\":"@
            + int_chars(in_reply_to as int) + ",\"messages\":"@ + int_list(messages@) + "}"@,
        Body::ReplicateSet { message } => "{\"type\":\"replicate\",\"message\":"@ + int_list(
            message@,
        ) + "}"@,
        Body::ReplicateCounts { p, n } => "{\"type\":\"replicate\",\"msg\":["@ + counts_obj(p@)
            + ","@ + counts_obj(n@) + "]}"@,
        Body::Broadcast { msg_id, message } => "{\"type\":\"broadcast\",\"msg_id\":"@ + int_chars(
            msg_id as int,
        ) + ",\"message\":"@ + int_chars(message as int) + "}"@,
        Body::BroadcastOk { msg_id, in_reply_to } => "{\"type\":\"broadcast_ok\",\"msg_id\":"@
            + int_chars(msg_id as int) + ",\"in_reply_to\":"@ + int_chars(in_reply_to as int)
            + "}"@,
        Body::TxnOk { msg_id, in_reply_to, txn } => "{\"type\":\"txn_ok\",\"msg_id\":"@ + int_chars(
            msg_id as int,
        ) + ",\"in_reply_to\":"@ + int_chars(in_reply_to as int) + ",\"txn\":"@ + result_list(txn@)
            + "}"@,
        Body::Error { msg_id, in_reply_to, code, text } => "{\"type\":\"error\",\"msg_id\":"@
            + int_chars(msg_id as int) + ",\"in_reply_to\":"@ + int_chars(in_reply_to as int)
            + ",\"code\":"@ + int_chars(code as int) + ",\"text\":"@ + json_string(text@) + "}"@,
        Body::KvRead { msg_id, key } => "{\"type\":\"read\",\"msg_id\":"@ + int_chars(msg_id as int)
            + ",\"key\":"@ + json_string(key@) + "}"@,
        Body::KvCas { msg_id, key, from, to, create_if_not_exists } => "{\"type\":\"cas\",\"msg_id\":"@
            + int_chars(msg_id as int) + ",\"key\":"@ + json_string(key@) + ",\"from\":"@
            + store_obj(from) + ",\"to\":"@ + store_obj(to) + ",\"create_if_not_exists\":"@ + (
        if create_if_not_exists {
            "true"@
        } else {
            "false"@
        }) + "}"@,
    }
}

/// Every text a body carries is acceptable.
pub open spec fn body_clean(b: Body) -> bool {
    match b {
        Body::EchoOk { echo, .. } => text_clean(echo@),
        Body::ReplicateCounts { p, n } => counts_clean(p@) && counts_clean(n@),
        Body::Error { text, .. } => text_clean(text@),
        Body::KvRead { key, .. } => text_clean(key@),
        Body::KvCas { key, .. } => text_clean(key@),
        _ => true,
    }
}

/// The characters of a whole envelope.
pub open spec fn envelope_chars(e: Envelope) -> Seq<char> {
    "{\"src\":"@ + json_string(e.src@) + ",\"dest\":"@ + json_string(e.dest@) + ",\"body\":"@
        + body_chars(e.body) + "}"@
}

/// Every text an envelope carries is acceptable.
pub open spec fn envelope_clean(e: Envelope) -> bool {
    text_clean(e.src@) && text_clean(e.dest@) && body_clean(e.body)
}

/// One digit as text.
fn digit_string(d: u64) -> (s: String)
    requires
        d < 10,
    ensures
        s@ == digit_rep(d as nat),
{
    if d == 0 {
        String::from_str("0")
    } else if d == 1 {
        String::from_str("1")
    } else if d == 2 {
        String::from_str("2")
    } else if d == 3 {
        String::from_str("3")
    } else if d == 4 {
        String::from_str("4")
    } else if d == 5 {
        String::from_str("5")
    } else if d == 6 {
        String::from_str("6")
    } else if d == 7 {
        String::from_str("7")
    } else if d == 8 {
        String::from_str("8")
    } else {
        String::from_str("9")
    }
}

/// The decimal digits of a magnitude.
fn dec_string(n: u64) -> (s: String)
    ensures
        s@ == dec_digits(n as nat),
    decreases n,
{
    if n < 10 {
        digit_string(n)
    } else {
        let mut s = dec_string(n / 10);
        let last = digit_string(n % 10);
        s.append(last.as_str());
        s
    }
}

/// A signed number as text.
fn int_string(n: i64) -> (s: String)
    ensures
        s@ == int_chars(n as int),
{
    if n >= 0 {
        dec_string(n as u64)
    } else {
        let mag: u64 = ((-(n + 1)) as u64) + 1;
        proof {
            assert(mag == -(n as int));
        }
        let mut s = String::from_str("-");
        let digits = dec_string(mag);
        s.append(digits.as_str());
        s
    }
}

/// A text with each character escaped.
fn escaped(s: &str) -> (r: String)
    ensures
        r@ == esc(s@),
{
    let n = s.unicode_len();
    let mut r = String::new();
    let mut i: usize = 0;
    while i < n
        invariant
            n == s@.len(),
            0 <= i <= n,
            r@ == esc(s@.take(i as int)),
        decreases n - i,
    {
        let c = s.get_char(i);
        if c == '"' {
            r.append("\\\"");
        } else if c == '\\' {
            r.append("\\\\");
        } else {
            let piece = s.substring_char(i, i + 1);
            proof {
                assert(piece@ =~= seq![s@[i as int]]);
            }
            r.append(piece);
        }
        proof {
            assert(s@.take(i as int + 1).drop_last() =~= s@.take(i as int));
            assert(s@.take(i as int + 1).last() == s@[i as int]);
        }
        i += 1;
    }
    proof {
        assert(s@.take(n as int) =~= s@);
    }
    r
}

/// A text between quotes, escaped.
fn json_string_of(s: &str) -> (r: String)
    ensures
        r@ == json_string(s@),
{
    let mut r = String::from_str("\"");
    let body = escaped(s);
    r.append(body.as_str());
    r.append("\"");
    r
}

/// Whether a text is free of control characters.
fn text_is_clean(s: &str) -> (r: bool)
    ensures
        r == text_clean(s@),
{
    let n = s.unicode_len();
    let mut i: usize = 0;
    while i < n
        invariant
            n == s@.len(),
            0 <= i <= n,
            forall|j: int| 0 <= j < i ==> (s@[j] as u32) >= 0x20,
        decreases n - i,
    {
        let c = s.get_char(i);
        if (c as u32) < 0x20 {
            return false;
        }
        i += 1;
    }
    true
}

/// A list of numbers as a JSON array.
fn int_list_string(v: &Vec<i64>) -> (s: String)
    ensures
        s@ == int_list(v@),
{
    let n = v.len();
    let mut s = String::from_str("[");
    let mut i: usize = 0;
    while i < n
        invariant
            n == v@.len(),
            0 <= i <= n,
            s@ == "["@ + int_items(v@.take(i as int)),
        decreases n - i,
    {
        if i > 0 {
            s.append(",");
        }
        let item = int_string(v[i]);
        s.append(item.as_str());
        proof {
            let pre = v@.take(i as int);
            let cur = v@.take(i as int + 1);
            assert(cur.drop_last() =~= pre);
            assert(cur.last() == v@[i as int]);
            if i == 0 {
                assert(int_items(cur) == int_chars(v@[0] as int));
                assert(s@ =~= "["@ + int_items(cur));
            } else {
                assert(int_items(cur) == int_items(pre) + ","@ + int_chars(v@[i as int] as int));
                assert(s@ =~= "["@ + int_items(cur));
            }
        }
        i += 1;
    }
    proof {
        assert(v@.take(n as int) =~= v@);
    }
    s.append("]");
    proof {
        assert(s@ =~= int_list(v@));
    }
    s
}

/// A count vector as a JSON object.
fn counts_string(v: &Vec<(String, i64)>) -> (s: String)
    ensures
        s@ == counts_obj(v@),
{
    let n = v.len();
    let mut s = String::from_str("{");
    let mut i: usize = 0;
    while i < n
        invariant
            n == v@.len(),
            0 <= i <= n,
            s@ == "{"@ + count_items(v@.take(i as int)),
        decreases n - i,
    {
        if i > 0 {
            s.append(",");
        }
        let key = json_string_of(v[i].0.as_str());
        s.append(key.as_str());
        s.append(":");
        let num = int_string(v[i].1);
        s.append(num.as_str());
        proof {
            let pre = v@.take(i as int);
            let cur = v@.take(i as int + 1);
            assert(cur.drop_last() =~= pre);
            assert(cur.last() == v@[i as int]);
            if i == 0 {
                assert(count_items(cur) == count_item(v@[0]));
                assert(s@ =~= "{"@ + count_items(cur));
            } else {
                assert(count_items(cur) == count_items(pre) + ","@ + count_item(v@[i as int]));
                assert(s@ =~= "{"@ + count_items(cur));
            }
        }
        i += 1;
    }
    proof {
        assert(v@.take(n as int) =~= v@);
    }
    s.append("}");
    proof {
        assert(s@ =~= counts_obj(v@));
    }
    s
}

/// A store as a JSON object with quoted numeric keys.
fn store_string(st: &Store) -> (s: String)
    ensures
        s@ == store_obj(*st),
{
    let n = st.entries.len();
    let mut s = String::from_str("{");
    let mut i: usize = 0;
    while i < n
        invariant
            n == st.entries@.len(),
            0 <= i <= n,
            s@ == "{"@ + store_items(st.entries@.take(i as int)),
        decreases n - i,
    {
        if i > 0 {
            s.append(",");
        }
        s.append("\"");
        let key = int_string(st.entries[i].0);
        s.append(key.as_str());
        s.append("\"");
        s.append(":");
        let vals = int_list_string(&st.entries[i].1);
        s.append(vals.as_str());
        proof {
            let pre = st.entries@.take(i as int);
            let cur = st.entries@.take(i as int + 1);
            assert(cur.drop_last() =~= pre);
            assert(cur.last() == st.entries@[i as int]);
            if i == 0 {
                assert(store_items(cur) == store_item(st.entries@[0]));
                assert(s@ =~= "{"@ + store_items(cur));
            } else {
                assert(store_items(cur) == store_items(pre) + ","@ + store_item(
                    st.entries@[i as int],
                ));
                assert(s@ =~= "{"@ + store_items(cur));
            }
        }
        i += 1;
    }
    proof {
        assert(st.entries@.take(n as int) =~= st.entries@);
    }
    s.append("}");
    proof {
        assert(s@ =~= store_obj(*st));
    }
    s
}

/// A transaction's results as a JSON array of wire triples.
fn results_string(v: &Vec<TxnResult>) -> (s: String)
    ensures
        s@ == result_list(v@),
{
    let n = v.len();
    let mut s = String::from_str("[");
    let mut i: usize = 0;
    while i < n
        invariant
            n == v@.len(),
            0 <= i <= n,
            s@ == "["@ + result_items(v@.take(i as int)),
        decreases n - i,
    {
        if i > 0 {
            s.append(",");
        }
        match &v[i] {
            TxnResult::Append { key, value } => {
                s.append("[\"append\",");
                let k = int_string(*key);
                s.append(k.as_str());
                s.append(",");
                let val = int_string(*value);
                s.append(val.as_str());
                s.append("]");
            },
            TxnResult::Read { key, value } => {
                s.append("[\"r\",");
                let k = int_string(*key);
                s.append(k.as_str());
                s.append(",");
                match value {
                    Some(hist) => {
                        let vals = int_list_string(hist);
                        s.append(vals.as_str());
                    },
                    None => {
                        s.append("null");
                    },
                }
                s.append("]");
            },
        }
        proof {
            let pre = v@.take(i as int);
            let cur = v@.take(i as int + 1);
            assert(cur.drop_last() =~= pre);
            assert(cur.last() == v@[i as int]);
            if i == 0 {
                assert(result_items(cur) == result_chars(v@[0]));
                assert(s@ =~= "["@ + result_items(cur));
            } else {
                assert(result_items(cur) == result_items(pre) + ","@ + result_chars(
                    v@[i as int],
                ));
                assert(s@ =~= "["@ + result_items(cur));
            }
        }
        i += 1;
    }
    proof {
        assert(v@.take(n as int) =~= v@);
    }
    s.append("]");
    proof {
        assert(s@ =~= result_list(v@));
    }
    s
}

/// One body as JSON text.
fn body_string(b: &Body) -> (s: String)
    ensures
        s@ == body_chars(*b),
{
    match b {
        Body::InitOk { msg_id, in_reply_to } => {
            let mut s = String::from_str("{\"type\":\"init_ok\",\"msg_id\":");
            let m = int_string(*msg_id);
            s.append(m.as_str());
            s.append(",\"in_reply_to\":");
            let irt = int_string(*in_reply_to);
            s.append(irt.as_str());
            s.append("}");
            proof {
                assert(s@ =~= body_chars(*b));
            }
            s
        },
        Body::EchoOk { msg_id, in_reply_to, echo } => {
            let mut s = String::from_str("{\"type\":\"echo_ok\",\"msg_id\":");
            let m = int_string(*msg_id);
            s.append(m.as_str());
            s.append(",\"in_reply_to\":");
            let irt = int_string(*in_reply_to);
            s.append(irt.as_str());
            s.append(",\"echo\":");
            let e = json_string_of(echo.as_str());
            s.append(e.as_str());
            s.append("}");
            proof {
                assert(s@ =~= body_chars(*b));
            }
            s
        },
        Body::TopologyOk { msg_id, in_reply_to } => {
            let mut s = String::from_str("{\"type\":\"topology_ok\",\"msg_id\":");
            let m = int_string(*msg_id);
            s.append(m.as_str());
            s.append(",\"in_reply_to\":");
            let irt = int_string(*in_reply_to);
            s.append(irt.as_str());
            s.append("}");
            proof {
                assert(s@ =~= body_chars(*b));
            }
            s
        },
        Body::AddOk { msg_id, in_reply_to } => {
            let mut s = String::from_str("{\"type\":\"add_ok\",\"msg_id\":");
            let m = int_string(*msg_id);
            s.append(m.as_str());
            s.append(",\"in_reply_to\":");
            let irt = int_string(*in_reply_to);
            s.append(irt.as_str());
            s.append("}");
            proof {
                assert(s@ =~= body_chars(*b));
            }
            s
        },
        Body::ReadOkSet { in_reply_to, value } => {
            let mut s = String::from_str("{\"type\":\"read_ok\",\"in_reply_to\":");
            let irt = int_string(*in_reply_to);
            s.append(irt.as_str());
            s.append(",\"value\":");
            let vals = int_list_string(value);
            s.append(vals.as_str());
            s.append("}");
            proof {
                assert(s@ =~= body_chars(*b));
            }
            s
        },
        Body::ReadOkCount { in_reply_to, value } => {
            let mut s = String::from_str("{\"type\":\"read_ok\",\"in_reply_to\":");
            let irt = int_string(*in_reply_to);
            s.append(irt.as_str());
            s.append(",\"value\":");
            let val = int_string(*value);
            s.append(val.as_str());
            s.append("}");
            proof {
                assert(s@ =~= body_chars(*b));
            }
            s
        },
        Body::ReadOkMessages { in_reply_to, messages } => {
            let mut s = String::from_str("{\"type\":\"read_ok\",\"in_reply_to\":");
            let irt = int_string(*in_reply_to);
            s.append(irt.as_str());
            s.append(",\"messages\":");
            let vals = int_list_string(messages);
            s.append(vals.as_str());
            s.append("}");
            proof {
                assert(s@ =~= body_chars(*b));
            }
            s
        },
        Body::ReplicateSet { message } => {
            let mut s = String::from_str("{\"type\":\"replicate\",\"message\":");
            let vals = int_list_string(message);
            s.append(vals.as_str());
            s.append("}");
            proof {
                assert(s@ =~= body_chars(*b));
            }
            s
        },
        Body::ReplicateCounts { p, n } => {
            let mut s = String::from_str("{\"type\":\"replicate\",\"msg\":[");
            let po = counts_string(p);
            s.append(po.as_str());
            s.append(",");
            let no = counts_string(n);
            s.append(no.as_str());
            s.append("]}");
            proof {
                assert(s@ =~= body_chars(*b));
            }
            s
        },
        Body::Broadcast { msg_id, message } => {
            let mut s = String::from_str("{\"type\":\"broadcast\",\"msg_id\":");
            let m = int_string(*msg_id);
            s.append(m.as_str());
            s.append(",\"message\":");
            let val = int_string(*message);
            s.append(val.as_str());
            s.append("}");
            proof {
                assert(s@ =~= body_chars(*b));
            }
            s
        },
        Body::BroadcastOk { msg_id, in_reply_to } => {
            let mut s = String::from_str("{\"type\":\"broadcast_ok\",\"msg_id\":");
            let m = int_string(*msg_id);
            s.append(m.as_str());
            s.append(",\"in_reply_to\":");
            let irt = int_string(*in_reply_to);
            s.append(irt.as_str());
            s.append("}");
            proof {
                assert(s@ =~= body_chars(*b));
            }
            s
        },
        Body::TxnOk { msg_id, in_reply_to, txn } => {
            let mut s = String::from_str("{\"type\":\"txn_ok\",\"msg_id\":");
            let m = int_string(*msg_id);
            s.append(m.as_str());
            s.append(",\"in_reply_to\":");
            let irt = int_string(*in_reply_to);
            s.append(irt.as_str());
            s.append(",\"txn\":");
            let results = results_string(txn);
            s.append(results.as_str());
            s.append("}");
            proof {
                assert(s@ =~= body_chars(*b));
            }
            s
        },
        Body::Error { msg_id, in_reply_to, code, text } => {
            let mut s = String::from_str("{\"type\":\"error\",\"msg_id\":");
            let m = int_string(*msg_id);
            s.append(m.as_str());
            s.append(",\"in_reply_to\":");
            let irt = int_string(*in_reply_to);
            s.append(irt.as_str());
            s.append(",\"code\":");
            let c = int_string(*code);
            s.append(c.as_str());
            s.append(",\"text\":");
            let t = json_string_of(text.as_str());
            s.append(t.as_str());
            s.append("}");
            proof {
                assert(s@ =~= body_chars(*b));
            }
            s
        },
        Body::KvRead { msg_id, key } => {
            let mut s = String::from_str("{\"type\":\"read\",\"msg_id\":");
            let m = int_string(*msg_id);
            s.append(m.as_str());
            s.append(",\"key\":");
            let k = json_string_of(key.as_str());
            s.append(k.as_str());
            s.append("}");
            proof {
                assert(s@ =~= body_chars(*b));
            }
            s
        },
        Body::KvCas { msg_id, key, from, to, create_if_not_exists } => {
            let mut s = String::from_str("{\"type\":\"cas\",\"msg_id\":");
            let m = int_string(*msg_id);
            s.append(m.as_str());
            s.append(",\"key\":");
            let k = json_string_of(key.as_str());
            s.append(k.as_str());
            s.append(",\"from\":");
            let f = store_string(from);
            s.append(f.as_str());
            s.append(",\"to\":");
            let t = store_string(to);
            s.append(t.as_str());
            s.append(",\"create_if_not_exists\":");
            if *create_if_not_exists {
                s.append("true");
            } else {
                s.append("false");
            }
            s.append("}");
            proof {
                assert(s@ =~= body_chars(*b));
            }
            s
        },
    }
}

/// Whether every text a body carries is acceptable.
fn body_is_clean(b: &Body) -> (r: bool)
    ensures
        r == body_clean(*b),
{
    match b {
        Body::EchoOk { echo, .. } => text_is_clean(echo.as_str()),
        Body::ReplicateCounts { p, n } => counts_are_clean(p) && counts_are_clean(n),
        Body::Error { text, .. } => text_is_clean(text.as_str()),
        Body::KvRead { key, .. } => text_is_clean(key.as_str()),
        Body::KvCas { key, .. } => text_is_clean(key.as_str()),
        _ => true,
    }
}

/// Whether every id in a count vector is acceptable.
fn counts_are_clean(v: &Vec<(String, i64)>) -> (r: bool)
    ensures
        r == counts_clean(v@),
{
    let n = v.len();
    let mut i: usize = 0;
    while i < n
        invariant
            n == v@.len(),
            0 <= i <= n,
            forall|j: int| 0 <= j < i ==> text_clean((#[trigger] v@[j]).0@),
        decreases n - i,
    {
        if !text_is_clean(v[i].0.as_str()) {
            return false;
        }
        i += 1;
    }
    true
}

/// Frames one envelope as a line of JSON text.  An envelope whose texts
/// are all free of control characters is framed exactly as
/// `envelope_chars` lays it out; any other envelope is refused.
pub fn encode_envelope(e: &Envelope) -> (r: Option<String>)
    ensures
        r is Some <==> envelope_clean(*e),
        r matches Some(s) ==> s@ == envelope_chars(*e),
{
    if !text_is_clean(e.src.as_str()) {
        return None;
    }
    if !text_is_clean(e.dest.as_str()) {
        return None;
    }
    if !body_is_clean(&e.body) {
        return None;
    }
    let mut s = String::from_str("{\"src\":");
    let src = json_string_of(e.src.as_str());
    s.append(src.as_str());
    s.append(",\"dest\":");
    let dest = json_string_of(e.dest.as_str());
    s.append(dest.as_str());
    s.append(",\"body\":");
    let body = body_string(&e.body);
    s.append(body.as_str());
    s.append("}");
    proof {
        assert(s@ =~= envelope_chars(*e));
    }
    Some(s)
}

} // verus!
