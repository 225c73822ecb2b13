//! Answers as clients see them.

use vstd::prelude::*;
use vstd::string::*;
use vstd::utf8::*;

use crate::control;
use crate::httpx::header;
use crate::httpx::json;
use crate::httpx::Reply;
use crate::text;

verus! {

/// A reply of which nothing has gone out.
pub open spec fn unsent(r: Reply) -> bool {
    r.sent is None && r.pieces.len() == 0
}

/// The reply has gone out with this status and these bytes as its body, and the connection is to
/// be closed behind it.
pub open spec fn carries(r: Reply, status: u16, body: Seq<u8>) -> bool {
    &&& r.sent matches Some(s) && {
        &&& s.status == status
        &&& s.header.dom().contains("Connection"@)
        &&& s.header["Connection"@] == seq!["close"@]
    }
    &&& body.len() == 0 ==> r.pieces.len() == 0
    &&& body.len() > 0 ==> r.pieces == seq![body]
}

/// The field `name` of the reply has this value and no other.
pub open spec fn has_field(r: Reply, name: Seq<char>, value: Seq<char>) -> bool {
    r.sent matches Some(s) && s.header.dom().contains(name) && s.header[name] == seq![value]
}

/// The reply has gone out with this status and this text, which is JSON, as its body.
pub open spec fn says(r: Reply, status: u16, body: Seq<char>) -> bool {
    &&& carries(r, status, encode_utf8(body))
    &&& has_field(r, "Content-Type"@, "application/json"@)
    &&& has_field(r, "Content-Length"@, text::dec(encode_utf8(body).len()))
    &&& !(r.sent->0).chunked
}

/// The reply says what is wrong.
pub open spec fn complains(r: Reply, status: u16, msg: Seq<char>) -> bool {
    says(r, status, "{\"error\":"@ + json::string_text(msg, true) + "}"@)
}

/// A flag as JSON writes it.
pub open spec fn flag(b: bool) -> Seq<char> {
    if b {
        "true"@
    } else {
        "false"@
    }
}

#[verifier::rlimit(40)]
pub proof fn lemma_json(before: Reply, status: u16, body: Seq<char>)
    requires
        unsent(before),
        body.len() > 0,
    ensures
        says(control::json_reply(before, status, Some(body)), status, body),
{
    header::lemma_names();
    text::lemma_encode_char(body[0]);
    assert(body =~= seq![body[0]] + body.drop_first());
    text::lemma_encode_concat(seq![body[0]], body.drop_first());
    assert(encode_utf8(body).len() > 0);
    let typed = before.with_field("Content-Type"@, "application/json"@);
    let sized = typed.with_field("Content-Length"@, text::dec(encode_utf8(body).len()));
    let closing = sized.with_field("Connection"@, "close"@);
    assert(header::field(closing.header, "Content-Length"@) is Some);
    let r = control::json_reply(before, status, Some(body));
    assert(r.pieces =~= seq![encode_utf8(body)]);
}

/// The fields that were set before stay.
pub proof fn lemma_other_field(
    before: Reply,
    name: Seq<char>,
    value: Seq<char>,
    status: u16,
    body: Seq<char>,
)
    requires
        unsent(before),
        body.len() > 0,
        header::canonical(name) == name,
        name != "Content-Type"@,
        name != "Content-Length"@,
        name != "Connection"@,
    ensures
        has_field(
            control::json_reply(before.with_field(name, value), status, Some(body)),
            name,
            value,
        ),
{
    header::lemma_names();
    let b = before.with_field(name, value);
    let typed = b.with_field("Content-Type"@, "application/json"@);
    let sized = typed.with_field("Content-Length"@, text::dec(encode_utf8(body).len()));
    let closing = sized.with_field("Connection"@, "close"@);
    assert(header::field(closing.header, "Content-Length"@) is Some);
}

/// Small letters and underscores.
pub open spec fn is_key(t: Seq<char>) -> bool {
    forall|i: int| 0 <= i < t.len() ==> 'a' <= #[trigger] t[i] <= 'z' || t[i] == '_'
}

proof fn lemma_key_char(c: char)
    requires
        'a' <= c <= 'z' || c == '_',
    ensures
        json::char_text(c, true) == seq![c],
        json::char_text(c, false) == seq![c],
{
}

proof fn lemma_key_chars(t: Seq<char>)
    requires
        is_key(t),
    ensures
        json::chars_text(t, true) == t,
        json::chars_text(t, false) == t,
    decreases t.len(),
{
    if t.len() > 0 {
        assert forall|i: int| 0 <= i < t.drop_last().len() implies 'a'
            <= #[trigger] t.drop_last()[i] <= 'z' || t.drop_last()[i] == '_' by {
            assert(t.drop_last()[i] == t[i]);
        }
        lemma_key_chars(t.drop_last());
        lemma_key_char(t[t.len() - 1]);
        assert(t.drop_last() + seq![t.last()] =~= t);
    } else {
        assert(json::chars_text(t, true) =~= t);
        assert(json::chars_text(t, false) =~= t);
    }
}

pub proof fn lemma_key(t: Seq<char>)
    requires
        is_key(t),
    ensures
        json::string_text(t, true) == seq!['"'] + t + seq!['"'],
        json::string_text(t, false) == seq!['"'] + t + seq!['"'],
{
    lemma_key_chars(t);
}

pub proof fn lemma_object_one(k: Seq<char>, v: Seq<char>)
    requires
        is_key(k),
    ensures
        json::object_of(seq![(k, v)], true) == seq!['{', '"'] + k + seq!['"', ':'] + v + seq!['}'],
{
    lemma_key(k);
    reveal_with_fuel(json::pairs_text, 2);
    assert(json::object_of(seq![(k, v)], true) =~= seq!['{', '"'] + k + seq!['"', ':'] + v
        + seq!['}']);
}

#[verifier::rlimit(40)]
pub proof fn lemma_object_two(k: Seq<char>, v: Seq<char>, l: Seq<char>, w: Seq<char>)
    requires
        is_key(k),
        is_key(l),
    ensures
        json::object_of(seq![(k, v), (l, w)], true) == seq!['{', '"'] + k + seq!['"', ':'] + v
            + seq![',', '"'] + l + seq!['"', ':'] + w + seq!['}'],
{
    lemma_key(k);
    lemma_key(l);
    reveal_with_fuel(json::pairs_text, 3);
    assert(json::object_of(seq![(k, v), (l, w)], true) =~= seq!['{', '"'] + k + seq!['"', ':'] + v
        + seq![',', '"'] + l + seq!['"', ':'] + w + seq!['}']);
}

/// One more member.
pub proof fn lemma_pairs_step(ps: Seq<(Seq<char>, Seq<char>)>, n: nat, html: bool)
    requires
        0 < n <= ps.len(),
        is_key(ps[n - 1].0),
    ensures
        json::pairs_text(ps, n, html) == json::pairs_text(ps, (n - 1) as nat, html) + (if n == 1 {
            seq!['"']
        } else {
            seq![',', '"']
        }) + ps[n - 1].0 + seq!['"', ':'] + ps[n - 1].1,
{
    let (k, v) = ps[n - 1];
    lemma_key(k);
    let head = json::pairs_text(ps, (n - 1) as nat, html);
    assert(json::pairs_text(ps, n, html) == head + json::comma(n) + json::string_text(k, html)
        + seq![':'] + v);
    assert(head + json::comma(n) + json::string_text(k, html) + seq![':'] =~= head + (if n == 1 {
        seq!['"']
    } else {
        seq![',', '"']
    }) + k + seq!['"', ':']);
}

#[verifier::rlimit(40)]
pub proof fn lemma_object_three(
    k: Seq<char>,
    v: Seq<char>,
    l: Seq<char>,
    w: Seq<char>,
    m: Seq<char>,
    x: Seq<char>,
)
    requires
        is_key(k),
        is_key(l),
        is_key(m),
    ensures
        json::object_of(seq![(k, v), (l, w), (m, x)], true) == seq!['{', '"'] + k + seq!['"', ':']
            + v + seq![',', '"'] + l + seq!['"', ':'] + w + seq![',', '"'] + m + seq!['"', ':'] + x
            + seq!['}'],
{
    let ps = seq![(k, v), (l, w), (m, x)];
    lemma_pairs_step(ps, 1, true);
    lemma_pairs_step(ps, 2, true);
    lemma_pairs_step(ps, 3, true);
    let t1 = json::pairs_text(ps, 1, true);
    let t2 = json::pairs_text(ps, 2, true);
    let t3 = json::pairs_text(ps, 3, true);
    let s1 = seq!['{', '"'] + k + seq!['"', ':'] + v;
    let s2 = s1 + seq![',', '"'] + l + seq!['"', ':'] + w;
    assert(json::pairs_text(ps, 0, true) =~= Seq::<char>::empty());
    assert(seq!['{'] + t1 =~= s1);
    lemma_behind(seq!['{'], t1, seq![',', '"'], l, seq!['"', ':'], w);
    assert(seq!['{'] + t2 == s2);
    lemma_behind(seq!['{'], t2, seq![',', '"'], m, seq!['"', ':'], x);
}

pub proof fn lemma_regroup(a: Seq<char>, b: Seq<char>, c: Seq<char>, d: Seq<char>)
    ensures
        a + b + c + d == a + (b + c + d),
{
    assert(a + b + c + d =~= a + (b + c + d));
}

proof fn lemma_behind(
    a: Seq<char>,
    b: Seq<char>,
    c: Seq<char>,
    d: Seq<char>,
    e: Seq<char>,
    f: Seq<char>,
)
    ensures
        a + (b + c + d + e + f) == a + b + c + d + e + f,
{
    assert(a + (b + c + d + e + f) =~= a + b + c + d + e + f);
}

/// The text of an answer with a result code.
pub proof fn lemma_result(t: Seq<char>)
    ensures
        json::object_of(seq![("result"@, t)], true) == "{\"result\":"@ + t + "}"@,
{
    reveal_strlit("result");
    reveal_strlit("{\"result\":");
    reveal_strlit("}");
    lemma_object_one("result"@, t);
    assert(seq!['{', '"'] + "result"@ + seq!['"', ':'] =~= "{\"result\":"@);
    assert(seq!['}'] =~= "}"@);
}

/// The text of an answer that says what is wrong.
pub proof fn lemma_error(t: Seq<char>)
    ensures
        json::object_of(seq![("error"@, t)], true) == "{\"error\":"@ + t + "}"@,
{
    reveal_strlit("error");
    reveal_strlit("{\"error\":");
    reveal_strlit("}");
    lemma_object_one("error"@, t);
    assert(seq!['{', '"'] + "error"@ + seq!['"', ':'] =~= "{\"error\":"@);
    assert(seq!['}'] =~= "}"@);
}

/// The result codes in digits.
pub proof fn lemma_codes()
    ensures
        text::dec_int(0) == "0"@,
        text::dec_int(-1) == "-1"@,
        text::dec_int(-5) == "-5"@,
        text::dec_int(-100) == "-100"@,
        text::dec_int(-103) == "-103"@,
{
    reveal_strlit("0");
    reveal_strlit("-1");
    reveal_strlit("-5");
    reveal_strlit("-100");
    reveal_strlit("-103");
    reveal_with_fuel(text::dec, 4);
    assert(text::dec_int(0) =~= "0"@);
    assert(text::dec_int(-1) =~= "-1"@);
    assert(text::dec_int(-5) =~= "-5"@);
    assert(text::dec_int(-100) =~= "-100"@);
    assert(text::dec_int(-103) =~= "-103"@);
}

/// An answer with a result code.
pub proof fn lemma_result_reply(before: Reply, status: u16, code: int)
    requires
        unsent(before),
        i32::MIN <= code <= i32::MAX,
    ensures
        says(
            control::result_reply(before, status, code as i32),
            status,
            "{\"result\":"@ + text::dec_int(code) + "}"@,
        ),
{
    let t = text::dec_int(code);
    lemma_result(t);
    reveal_strlit("}");
    lemma_json(before, status, json::object_of(seq![("result"@, t)], true));
}

/// An answer that says what is wrong.
pub proof fn lemma_error_reply(before: Reply, status: u16, msg: Seq<char>)
    requires
        unsent(before),
    ensures
        complains(control::error_reply(before, status, msg), status, msg),
{
    let t = json::string_text(msg, true);
    lemma_error(t);
    reveal_strlit("}");
    lemma_json(before, status, json::object_of(seq![("error"@, t)], true));
}

#[verifier::rlimit(40)]
pub proof fn lemma_result_texts()
    ensures
        "{\"result\":"@ + "0"@ + "}"@ == "{\"result\":0}"@,
        "{\"result\":"@ + "-1"@ + "}"@ == "{\"result\":-1}"@,
        "{\"result\":"@ + "-5"@ + "}"@ == "{\"result\":-5}"@,
        "{\"result\":"@ + "-100"@ + "}"@ == "{\"result\":-100}"@,
        "{\"result\":"@ + "-103"@ + "}"@ == "{\"result\":-103}"@,
{
    reveal_strlit("{\"result\":");
    reveal_strlit("}");
    reveal_strlit("0");
    reveal_strlit("-1");
    reveal_strlit("-5");
    reveal_strlit("-100");
    reveal_strlit("-103");
    reveal_strlit("{\"result\":0}");
    reveal_strlit("{\"result\":-1}");
    reveal_strlit("{\"result\":-5}");
    reveal_strlit("{\"result\":-100}");
    reveal_strlit("{\"result\":-103}");
    assert("{\"result\":"@ + "0"@ + "}"@ =~= "{\"result\":0}"@);
    assert("{\"result\":"@ + "-1"@ + "}"@ =~= "{\"result\":-1}"@);
    assert("{\"result\":"@ + "-5"@ + "}"@ =~= "{\"result\":-5}"@);
    assert("{\"result\":"@ + "-100"@ + "}"@ =~= "{\"result\":-100}"@);
    assert("{\"result\":"@ + "-103"@ + "}"@ =~= "{\"result\":-103}"@);
}

} // verus!
