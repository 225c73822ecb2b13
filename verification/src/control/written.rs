//! What is written as JSON is accepted as JSON, and answers reach the client.

use vstd::prelude::*;
use vstd::string::*;
use vstd::utf8::*;

use super::fields;
use super::scan;
use super::syntax;
use crate::httpx::json;
use crate::httpx::json::{JsonMap, JsonOptions, JsonValue};
use crate::httpx::exchange;
use crate::httpx::header;
use crate::httpx::parse;
use crate::httpx::parse::ResponseProgress;
use crate::httpx::response;
use crate::text;

verus! {

/// Whether a value may end before `p`: the input ends there, or something stands there that
/// cannot go on with it.
pub open spec fn ends_at(s: Seq<u8>, p: int) -> bool {
    p == s.len() || 0 <= p < s.len() && (s[p] == ',' as u8 || s[p] == ']' as u8 || s[p] == '}' as u8
        || scan::is_blank_byte(s[p]))
}

/// Whether a value may begin with the byte `b`.
pub open spec fn begins_value(b: u8) -> bool {
    !scan::is_blank_byte(b) && b != ']' as u8 && b != '}' as u8
}

/// Whether `t` is one JSON value: wherever it stands with nothing behind it that could go on with
/// it, a scan takes exactly `t`.
pub open spec fn one_value(t: Seq<char>) -> bool {
    let e = encode_utf8(t);
    &&& e.len() > 0
    &&& begins_value(e[0])
    &&& forall|s: Seq<u8>, pos: int| #[trigger]
        text::stands_at(s, pos, e) && ends_at(s, pos + e.len()) ==> scan::value_end(s, pos) == Ok::<
            int,
            Seq<char>,
        >(pos + e.len())
}

/// A value begins as it does wherever it stands.
proof fn lemma_begins(s: Seq<u8>, pos: int, t: Seq<char>)
    requires
        one_value(t),
        text::stands_at(s, pos, encode_utf8(t)),
    ensures
        0 <= pos < s.len(),
        begins_value(s[pos]),
{
    reveal(text::stands_at);
    assert(s.subrange(pos, pos + encode_utf8(t).len())[0] == encode_utf8(t)[0]);
}

/// The bytes of ASCII text where it stands.
proof fn lemma_ascii_stands(s: Seq<u8>, pos: int, t: Seq<char>)
    requires
        text::stands_at(s, pos, encode_utf8(t)),
        is_ascii_chars(t),
    ensures
        encode_utf8(t).len() == t.len(),
        0 <= pos,
        pos + t.len() <= s.len(),
        forall|i: int| 0 <= i < t.len() ==> #[trigger] s[pos + i] == t[i] as u8,
{
    reveal(text::stands_at);
    is_ascii_chars_encode_utf8(t);
    assert forall|i: int| 0 <= i < t.len() implies #[trigger] s[pos + i] == t[i] as u8 by {
        assert(s.subrange(pos, pos + t.len())[i] == encode_utf8(t)[i]);
    }
}

// ---------------------------------------------------------------------------
// Strings
// ---------------------------------------------------------------------------

/// Bytes that may stand in a string as they are.
proof fn lemma_plain_bytes(s: Seq<u8>, pos: int, n: nat)
    requires
        0 <= pos,
        pos + n <= s.len(),
        forall|i: int|
            pos <= i < pos + n ==> #[trigger] s[i] >= 0x20 && s[i] != '"' as u8 && s[i] != '\\' as u8,
    ensures
        scan::string_end(s, pos) == scan::string_end(s, pos + n),
    decreases n,
{
    if n > 0 {
        assert(s[pos] >= 0x20);
        lemma_plain_bytes(s, pos + 1, (n - 1) as nat);
    }
}

proof fn lemma_escape(s: Seq<u8>, pos: int, code: nat)
    requires
        code < 0x10000,
        text::stands_at(s, pos, encode_utf8(json::unicode_escape(code))),
    ensures
        scan::string_end(s, pos) == scan::string_end(
            s,
            pos + encode_utf8(json::unicode_escape(code)).len(),
        ),
{
    reveal_strlit("\\u");
    let h = text::hex(code);
    text::lemma_hex_reads_back(code);
    assert(h.len() <= 4) by {
        reveal_with_fuel(text::hex, 5);
    }
    let t = json::unicode_escape(code);
    let z = text::zero_fill(h, 4);
    assert(z.len() == 4);
    assert forall|i: int| 0 <= i < 4 implies text::is_digit(#[trigger] z[i]) || 'a' <= z[i]
        <= 'f' by {
        if h.len() == 4 {
            assert(z[i] == h[i]);
        } else if i >= 4 - h.len() {
            assert(z[i] == h[i - (4 - h.len())]);
        } else {
            assert(z[i] == '0');
        }
    }
    assert(t.len() == 6);
    assert forall|i: int| 0 <= i < 6 implies '\0' <= #[trigger] t[i] <= '\u{7f}' by {
        if i >= 2 {
            assert(t[i] == z[i - 2]);
        }
    }
    lemma_ascii_stands(s, pos, t);
    assert(s[pos + 0] == t[0] as u8);
    assert(s[pos + 1] == t[1] as u8);
    assert forall|i: int| 2 <= i < 6 implies syntax::is_hex_byte(#[trigger] s[pos + i]) by {
        assert(t[i] == z[i - 2]);
    }
    assert(syntax::is_hex_byte(s[pos + 2]));
    assert(syntax::is_hex_byte(s[pos + 3]));
    assert(syntax::is_hex_byte(s[pos + 4]));
    assert(syntax::is_hex_byte(s[pos + 5]));
    reveal_with_fuel(scan::hex_end, 5);
}

/// A written character is passed over.
proof fn lemma_char(s: Seq<u8>, pos: int, c: char, html: bool)
    requires
        text::stands_at(s, pos, encode_utf8(json::char_text(c, html))),
    ensures
        scan::string_end(s, pos) == scan::string_end(
            s,
            pos + encode_utf8(json::char_text(c, html)).len(),
        ),
{
    let t = json::char_text(c, html);
    reveal_strlit("\\\"");
    reveal_strlit("\\\\");
    reveal_strlit("\\n");
    reveal_strlit("\\r");
    reveal_strlit("\\t");
    reveal_strlit("\\b");
    reveal_strlit("\\f");
    if c == '"' || c == '\\' || c == '\n' || c == '\r' || c == '\t' || c as u32 == 8 || c as u32
        == 12 {
        assert(t.len() == 2 && is_ascii_chars(t));
        lemma_ascii_stands(s, pos, t);
        assert(s[pos + 0] == t[0] as u8);
        assert(s[pos + 1] == t[1] as u8);
    } else if t == json::unicode_escape(c as nat) && t != seq![c] {
        lemma_escape(s, pos, c as nat);
    } else {
        assert(t =~= seq![c]);
        text::lemma_encode_char(c);
        assert(t.drop_first() =~= Seq::<char>::empty());
        let e = encode_utf8(t);
        assert(encode_utf8(t.drop_first()) =~= Seq::<u8>::empty());
        assert(e =~= encode_scalar(c as u32));
        reveal(text::stands_at);
        assert forall|i: int| pos <= i < pos + e.len() implies #[trigger] s[i] >= 0x20 && s[i]
            != '"' as u8 && s[i] != '\\' as u8 by {
            assert(s[i] == s.subrange(pos, pos + e.len())[i - pos]);
        }
        lemma_plain_bytes(s, pos, e.len());
    }
}

proof fn lemma_chars(s: Seq<u8>, pos: int, t: Seq<char>, html: bool)
    requires
        text::stands_at(s, pos, encode_utf8(json::chars_text(t, html))),
    ensures
        scan::string_end(s, pos) == scan::string_end(
            s,
            pos + encode_utf8(json::chars_text(t, html)).len(),
        ),
    decreases t.len(),
{
    if t.len() > 0 {
        let (a, b) = (
            json::chars_text(t.drop_last(), html),
            json::char_text(t.last(), html),
        );
        text::lemma_encode_concat(a, b);
        text::lemma_stands_apart(s, pos, encode_utf8(a), encode_utf8(b));
        lemma_chars(s, pos, t.drop_last(), html);
        lemma_char(s, pos + encode_utf8(a).len(), t.last(), html);
    }
}

/// A written string is scanned to its closing quote.
proof fn lemma_string(s: Seq<u8>, pos: int, t: Seq<char>, html: bool)
    requires
        text::stands_at(s, pos, encode_utf8(json::string_text(t, html))),
    ensures
        0 <= pos < s.len(),
        s[pos] == '"' as u8,
        encode_utf8(json::string_text(t, html)).len() >= 2,
        scan::string_end(s, pos + 1) == Ok::<int, Seq<char>>(
            pos + encode_utf8(json::string_text(t, html)).len(),
        ),
{
    let q = seq!['"'];
    let body = json::chars_text(t, html);
    text::lemma_encode_concat(q + body, q);
    text::lemma_encode_concat(q, body);
    text::lemma_stands_apart(s, pos, encode_utf8(q) + encode_utf8(body), encode_utf8(q));
    text::lemma_stands_apart(s, pos, encode_utf8(q), encode_utf8(body));
    lemma_ascii_stands(s, pos, q);
    assert(s[pos + 0] == q[0] as u8);
    lemma_chars(s, pos + 1, t, html);
    let end = pos + 1 + encode_utf8(body).len();
    lemma_ascii_stands(s, end, q);
    assert(s[end + 0] == q[0] as u8);
}

proof fn lemma_string_value(t: Seq<char>, html: bool)
    ensures
        one_value(json::string_text(t, html)),
{
    let e = encode_utf8(json::string_text(t, html));
    text::lemma_stands_whole(e);
    lemma_string(e, 0, t, html);
    assert forall|s: Seq<u8>, pos: int| #[trigger]
        text::stands_at(s, pos, e) && ends_at(s, pos + e.len()) implies scan::value_end(s, pos)
        == Ok::<int, Seq<char>>(pos + e.len()) by {
        lemma_string(s, pos, t, html);
    }
}

// ---------------------------------------------------------------------------
// Numbers and literals
// ---------------------------------------------------------------------------

proof fn lemma_digits_run(s: Seq<u8>, pos: int, n: nat)
    requires
        0 <= pos,
        pos + n <= s.len(),
        forall|i: int| pos <= i < pos + n ==> #[trigger] syntax::digit_at(s, i),
        !syntax::digit_at(s, pos + n),
    ensures
        syntax::digits_end(s, pos) == pos + n,
    decreases n,
{
    if n > 0 {
        assert(syntax::digit_at(s, pos));
        lemma_digits_run(s, pos + 1, (n - 1) as nat);
    }
}

proof fn lemma_no_leading_zero(n: nat)
    ensures
        n > 0 ==> text::dec(n)[0] != '0',
    decreases n,
{
    if n >= 10 {
        lemma_no_leading_zero(n / 10);
        text::lemma_dec_reads_back(n / 10);
        assert(text::dec(n)[0] == text::dec(n / 10)[0]);
    }
}

proof fn lemma_number_value(n: int)
    ensures
        one_value(text::dec_int(n)),
{
    let t = text::dec_int(n);
    let m: nat = if n < 0 {
        (-n) as nat
    } else {
        n as nat
    };
    let d = text::dec(m);
    text::lemma_dec_reads_back(m);
    lemma_no_leading_zero(m);
    let sign: int = if n < 0 {
        1
    } else {
        0
    };
    assert(t.len() == sign + d.len());
    assert forall|i: int| 0 <= i < t.len() implies '\0' <= #[trigger] t[i] <= '\u{7f}' by {
        if i >= sign {
            assert(t[i] == d[i - sign]);
            assert(text::is_digit(d[i - sign]));
        }
    }
    let e = encode_utf8(t);
    is_ascii_chars_encode_utf8(t);
    assert(e[0] == t[0] as u8);
    assert forall|s: Seq<u8>, pos: int| #[trigger]
        text::stands_at(s, pos, e) && ends_at(s, pos + e.len()) implies scan::value_end(s, pos)
        == Ok::<int, Seq<char>>(pos + e.len()) by {
        lemma_ascii_stands(s, pos, t);
        let a = pos + sign;
        assert(s[pos + 0] == t[0] as u8);
        assert forall|i: int| a <= i < a + d.len() implies #[trigger] syntax::digit_at(s, i) by {
            assert(s[pos + (i - pos)] == t[i - pos] as u8);
            assert(t[i - pos] == d[i - a]);
            assert(text::is_digit(d[i - a]));
        }
        assert(syntax::digit_at(s, a));
        assert(s[pos + sign] == t[sign] as u8);
        assert(t[sign] == d[0]);
        lemma_digits_run(s, a, d.len());
        if m == 0 {
            assert(d =~= seq!['0']);
        }
    }
}

proof fn lemma_literal_value(t: Seq<char>)
    requires
        t == "true"@ || t == "false"@ || t == "null"@,
    ensures
        one_value(t),
{
    reveal_strlit("true");
    reveal_strlit("false");
    reveal_strlit("null");
    syntax::lemma_literals();
    let e = encode_utf8(t);
    is_ascii_chars_encode_utf8(t);
    assert(e[0] == t[0] as u8);
    assert forall|s: Seq<u8>, pos: int| #[trigger]
        text::stands_at(s, pos, e) && ends_at(s, pos + e.len()) implies scan::value_end(s, pos)
        == Ok::<int, Seq<char>>(pos + e.len()) by {
        lemma_ascii_stands(s, pos, t);
        assert(s[pos + 0] == t[0] as u8);
        assert(s[pos + 1] == t[1] as u8);
        assert(s[pos + 2] == t[2] as u8);
        assert(s[pos + 3] == t[3] as u8);
        if t.len() == 5 {
            assert(s[pos + 4] == t[4] as u8);
        }
        reveal_with_fuel(scan::literal_end, 6);
    }
}

// ---------------------------------------------------------------------------
// Lists
// ---------------------------------------------------------------------------

/// The first `n` texts with commas between them.
pub open spec fn list_text(ts: Seq<Seq<char>>, n: nat) -> Seq<char>
    decreases n,
{
    if n == 0 || n > ts.len() {
        Seq::empty()
    } else {
        list_text(ts, (n - 1) as nat) + json::comma(n) + ts[n - 1]
    }
}

/// The texts from the `k`th on, each behind a comma.
pub open spec fn tail_text(ts: Seq<Seq<char>>, k: nat) -> Seq<char>
    decreases ts.len() - k,
{
    if k >= ts.len() {
        Seq::empty()
    } else {
        seq![','] + ts[k as int] + tail_text(ts, k + 1)
    }
}

proof fn lemma_list_tail(ts: Seq<Seq<char>>, k: nat)
    requires
        1 <= k <= ts.len(),
    ensures
        list_text(ts, ts.len()) == list_text(ts, k) + tail_text(ts, k),
    decreases ts.len() - k,
{
    if k == ts.len() {
        assert(list_text(ts, k) + tail_text(ts, k) =~= list_text(ts, k));
    } else {
        lemma_list_tail(ts, k + 1);
        assert(list_text(ts, k + 1) + tail_text(ts, k + 1) =~= list_text(ts, k) + tail_text(ts, k));
    }
}

/// A list begins with its first text, behind which the others stand.
proof fn lemma_list(ts: Seq<Seq<char>>)
    requires
        ts.len() > 0,
    ensures
        list_text(ts, ts.len()) == ts[0] + tail_text(ts, 1),
{
    lemma_list_tail(ts, 1);
    assert(list_text(ts, 0) =~= Seq::<char>::empty());
    assert(list_text(ts, 1) =~= ts[0]);
}

/// What stands behind an item: a comma, or the end of the list.
proof fn lemma_behind_item(s: Seq<u8>, p: int, ts: Seq<Seq<char>>, k: nat, close: char)
    requires
        close == ']' || close == '}',
        text::stands_at(s, p, encode_utf8(tail_text(ts, k) + seq![close])),
    ensures
        0 <= p < s.len(),
        ends_at(s, p),
        k >= ts.len() ==> s[p] == close as u8 && encode_utf8(tail_text(ts, k) + seq![close]).len()
            == 1,
        k < ts.len() ==> {
            let rest = encode_utf8(tail_text(ts, k + 1) + seq![close]);
            &&& s[p] == ',' as u8
            &&& text::stands_at(s, p + 1, encode_utf8(ts[k as int]))
            &&& text::stands_at(s, p + 1 + encode_utf8(ts[k as int]).len(), rest)
            &&& encode_utf8(tail_text(ts, k) + seq![close]).len() == 1 + encode_utf8(
                ts[k as int],
            ).len() + rest.len()
        },
{
    if k >= ts.len() {
        assert(tail_text(ts, k) + seq![close] =~= seq![close]);
        lemma_ascii_stands(s, p, seq![close]);
        assert(s[p + 0] == seq![close][0] as u8);
    } else {
        let rest = tail_text(ts, k + 1) + seq![close];
        let c = seq![','];
        assert(tail_text(ts, k) + seq![close] =~= c + (ts[k as int] + rest));
        text::lemma_encode_concat(c, ts[k as int] + rest);
        text::lemma_encode_concat(ts[k as int], rest);
        text::lemma_stands_apart(
            s,
            p,
            encode_utf8(c),
            encode_utf8(ts[k as int]) + encode_utf8(rest),
        );
        lemma_ascii_stands(s, p, c);
        assert(s[p + 0] == c[0] as u8);
        text::lemma_stands_apart(s, p + 1, encode_utf8(ts[k as int]), encode_utf8(rest));
    }
}

/// The whole of a list in its brackets.
proof fn lemma_in_brackets(s: Seq<u8>, pos: int, ts: Seq<Seq<char>>, open: char, close: char)
    requires
        open == '[' && close == ']' || open == '{' && close == '}',
        text::stands_at(
            s,
            pos,
            encode_utf8(seq![open] + list_text(ts, ts.len()) + seq![close]),
        ),
    ensures
        0 <= pos < s.len(),
        s[pos] == open as u8,
        ts.len() == 0 ==> pos + 1 < s.len() && s[pos + 1] == close as u8 && encode_utf8(
            seq![open] + list_text(ts, ts.len()) + seq![close],
        ).len() == 2,
        ts.len() > 0 ==> {
            let rest = encode_utf8(tail_text(ts, 1) + seq![close]);
            &&& text::stands_at(s, pos + 1, encode_utf8(ts[0]))
            &&& text::stands_at(s, pos + 1 + encode_utf8(ts[0]).len(), rest)
            &&& encode_utf8(seq![open] + list_text(ts, ts.len()) + seq![close]).len() == 1
                + encode_utf8(ts[0]).len() + rest.len()
        },
{
    let o = seq![open];
    if ts.len() == 0 {
        assert(o + list_text(ts, ts.len()) + seq![close] =~= seq![open, close]);
        lemma_ascii_stands(s, pos, seq![open, close]);
        assert(s[pos + 0] == seq![open, close][0] as u8);
        assert(s[pos + 1] == seq![open, close][1] as u8);
    } else {
        lemma_list(ts);
        let rest = tail_text(ts, 1) + seq![close];
        assert(o + list_text(ts, ts.len()) + seq![close] =~= o + (ts[0] + rest));
        text::lemma_encode_concat(o, ts[0] + rest);
        text::lemma_encode_concat(ts[0], rest);
        text::lemma_stands_apart(s, pos, encode_utf8(o), encode_utf8(ts[0]) + encode_utf8(rest));
        lemma_ascii_stands(s, pos, o);
        assert(s[pos + 0] == o[0] as u8);
        text::lemma_stands_apart(s, pos + 1, encode_utf8(ts[0]), encode_utf8(rest));
    }
}

// ---------------------------------------------------------------------------
// Arrays
// ---------------------------------------------------------------------------

/// An item is scanned, and those behind it.
proof fn lemma_items_from(s: Seq<u8>, p: int, ts: Seq<Seq<char>>, k: nat)
    requires
        k < ts.len(),
        forall|i: int| 0 <= i < ts.len() ==> one_value(#[trigger] ts[i]),
        text::stands_at(s, p, encode_utf8(ts[k as int])),
        text::stands_at(
            s,
            p + encode_utf8(ts[k as int]).len(),
            encode_utf8(tail_text(ts, k + 1) + seq![']']),
        ),
    ensures
        scan::items_end(s, p) == Ok::<int, Seq<char>>(
            p + encode_utf8(ts[k as int]).len() + encode_utf8(
                tail_text(ts, k + 1) + seq![']'],
            ).len(),
        ),
    decreases ts.len() - k,
{
    let v = p + encode_utf8(ts[k as int]).len();
    lemma_behind_item(s, v, ts, k + 1, ']');
    assert(one_value(ts[k as int]));
    assert(scan::value_end(s, p) == Ok::<int, Seq<char>>(v));
    assert(scan::blank_end(s, v) == v);
    if k + 1 < ts.len() {
        lemma_items_from(s, v + 1, ts, k + 1);
    }
}

proof fn lemma_array_value(ts: Seq<Seq<char>>)
    requires
        forall|i: int| 0 <= i < ts.len() ==> one_value(#[trigger] ts[i]),
    ensures
        one_value(seq!['['] + list_text(ts, ts.len()) + seq![']']),
{
    let e = encode_utf8(seq!['['] + list_text(ts, ts.len()) + seq![']']);
    text::lemma_stands_whole(e);
    lemma_in_brackets(e, 0, ts, '[', ']');
    assert forall|s: Seq<u8>, pos: int| #[trigger]
        text::stands_at(s, pos, e) && ends_at(s, pos + e.len()) implies scan::value_end(s, pos)
        == Ok::<int, Seq<char>>(pos + e.len()) by {
        lemma_in_brackets(s, pos, ts, '[', ']');
        assert(scan::blank_end(s, pos) == pos);
        if ts.len() > 0 {
            assert(one_value(ts[0]));
            lemma_items_from(s, pos + 1, ts, 0);
            lemma_begins(s, pos + 1, ts[0]);
        }
    }
}

// ---------------------------------------------------------------------------
// Objects
// ---------------------------------------------------------------------------

/// A member of an object, given by key and written value.
pub open spec fn member_text(p: (Seq<char>, Seq<char>), html: bool) -> Seq<char> {
    json::string_text(p.0, html) + seq![':'] + p.1
}

/// The members of an object.
pub open spec fn member_texts(ps: Seq<(Seq<char>, Seq<char>)>, html: bool) -> Seq<Seq<char>> {
    Seq::new(ps.len(), |i: int| member_text(ps[i], html))
}

proof fn lemma_pairs_list(ps: Seq<(Seq<char>, Seq<char>)>, n: nat, html: bool)
    requires
        n <= ps.len(),
    ensures
        json::pairs_text(ps, n, html) == list_text(member_texts(ps, html), n),
    decreases n,
{
    if n > 0 {
        lemma_pairs_list(ps, (n - 1) as nat, html);
        let head = json::pairs_text(ps, (n - 1) as nat, html) + json::comma(n);
        assert(json::pairs_text(ps, n, html) =~= head + member_text(ps[n - 1], html));
    }
}

/// A key and its value are scanned.
proof fn lemma_member(s: Seq<u8>, p: int, m: (Seq<char>, Seq<char>), html: bool)
    requires
        one_value(m.1),
        text::stands_at(s, p, encode_utf8(member_text(m, html))),
        ends_at(s, p + encode_utf8(member_text(m, html)).len()),
    ensures
        ({
            let k = p + encode_utf8(json::string_text(m.0, html)).len();
            let v = p + encode_utf8(member_text(m, html)).len();
            &&& 0 <= p < s.len()
            &&& s[p] == '"' as u8
            &&& scan::string_end(s, p + 1) == Ok::<int, Seq<char>>(k)
            &&& p + 1 < k < v <= s.len()
            &&& s[k] == ':' as u8
            &&& scan::value_end(s, k + 1) == Ok::<int, Seq<char>>(v)
        }),
{
    let key = json::string_text(m.0, html);
    let c = seq![':'];
    assert(member_text(m, html) =~= key + (c + m.1));
    text::lemma_encode_concat(key, c + m.1);
    text::lemma_encode_concat(c, m.1);
    text::lemma_stands_apart(s, p, encode_utf8(key), encode_utf8(c) + encode_utf8(m.1));
    lemma_string(s, p, m.0, html);
    let k = p + encode_utf8(key).len();
    text::lemma_stands_apart(s, k, encode_utf8(c), encode_utf8(m.1));
    lemma_ascii_stands(s, k, c);
    assert(s[k + 0] == c[0] as u8);
    lemma_begins(s, k + 1, m.1);
    assert(k + 1 + encode_utf8(m.1).len() <= s.len()) by {
        reveal(text::stands_at);
    }
}

/// A member is scanned, and those behind it.
proof fn lemma_members_from(
    s: Seq<u8>,
    p: int,
    ps: Seq<(Seq<char>, Seq<char>)>,
    html: bool,
    k: nat,
)
    requires
        k < ps.len(),
        forall|i: int| 0 <= i < ps.len() ==> one_value((#[trigger] ps[i]).1),
        text::stands_at(s, p, encode_utf8(member_text(ps[k as int], html))),
        text::stands_at(
            s,
            p + encode_utf8(member_text(ps[k as int], html)).len(),
            encode_utf8(tail_text(member_texts(ps, html), k + 1) + seq!['}']),
        ),
    ensures
        scan::members_end(s, p) == Ok::<int, Seq<char>>(
            p + encode_utf8(member_text(ps[k as int], html)).len() + encode_utf8(
                tail_text(member_texts(ps, html), k + 1) + seq!['}'],
            ).len(),
        ),
    decreases ps.len() - k,
{
    let ts = member_texts(ps, html);
    let v = p + encode_utf8(member_text(ps[k as int], html)).len();
    lemma_behind_item(s, v, ts, k + 1, '}');
    lemma_member(s, p, ps[k as int], html);
    assert(scan::blank_end(s, p) == p);
    let c = p + encode_utf8(json::string_text(ps[k as int].0, html)).len();
    assert(scan::blank_end(s, c) == c);
    assert(scan::blank_end(s, v) == v);
    if k + 1 < ps.len() {
        lemma_members_from(s, v + 1, ps, html, k + 1);
    }
}

proof fn lemma_object_value(ps: Seq<(Seq<char>, Seq<char>)>, html: bool)
    requires
        forall|i: int| 0 <= i < ps.len() ==> one_value((#[trigger] ps[i]).1),
    ensures
        one_value(json::object_of(ps, html)),
{
    let ts = member_texts(ps, html);
    lemma_pairs_list(ps, ps.len(), html);
    let e = encode_utf8(json::object_of(ps, html));
    text::lemma_stands_whole(e);
    lemma_in_brackets(e, 0, ts, '{', '}');
    assert forall|s: Seq<u8>, pos: int| #[trigger]
        text::stands_at(s, pos, e) && ends_at(s, pos + e.len()) implies scan::value_end(s, pos)
        == Ok::<int, Seq<char>>(pos + e.len()) by {
        lemma_in_brackets(s, pos, ts, '{', '}');
        assert(scan::blank_end(s, pos) == pos);
        if ps.len() > 0 {
            lemma_members_from(s, pos + 1, ps, html, 0);
            lemma_behind_item(s, pos + 1 + encode_utf8(ts[0]).len(), ts, 1, '}');
            lemma_member(s, pos + 1, ps[0], html);
            assert(scan::blank_end(s, pos + 1) == pos + 1);
        }
    }
}

// ---------------------------------------------------------------------------
// Values
// ---------------------------------------------------------------------------

/// The items of an array as they are written.
pub open spec fn item_texts(items: Seq<JsonValue>, html: bool) -> Seq<Seq<char>> {
    Seq::new(items.len(), |i: int| json::value_text(items[i], html))
}

proof fn lemma_items_list(items: Seq<JsonValue>, n: nat, html: bool)
    requires
        n <= items.len(),
    ensures
        json::items_text(items, n, html) == list_text(item_texts(items, html), n),
    decreases n,
{
    if n > 0 {
        lemma_items_list(items, (n - 1) as nat, html);
    }
}

/// Whatever value is written, the text is one JSON value.
pub proof fn lemma_value(v: JsonValue, html: bool)
    ensures
        one_value(json::value_text(v, html)),
    decreases v, 1nat,
{
    match v {
        JsonValue::Null => lemma_literal_value("null"@),
        JsonValue::Bool(b) => lemma_literal_value(
            if b {
                "true"@
            } else {
                "false"@
            },
        ),
        JsonValue::Number(n) => lemma_number_value(n as int),
        JsonValue::String(t) => lemma_string_value(t@, html),
        JsonValue::Array(items) => {
            let ts = item_texts(items@, html);
            assert forall|i: int| 0 <= i < ts.len() implies one_value(#[trigger] ts[i]) by {
                assert(decreases_to!(v => items));
                assert(decreases_to!(items => items@[i]));
                lemma_value(items@[i], html);
            }
            lemma_items_list(items@, items@.len(), html);
            lemma_array_value(ts);
        },
        JsonValue::Struct(fields) => {
            assert(decreases_to!(v => fields));
            lemma_members(v, fields@, html);
        },
        JsonValue::Dict(m) => {
            json::lemma_members_smaller(v);
            lemma_members(v, m.members(), html);
        },
    }
}

proof fn lemma_members(v: JsonValue, fields: Seq<(String, JsonValue)>, html: bool)
    requires
        decreases_to!(v => fields),
    ensures
        one_value(json::object_text(fields, html)),
    decreases v, 0nat,
{
    let ps = json::member_pairs(fields, html);
    assert forall|i: int| 0 <= i < ps.len() implies one_value((#[trigger] ps[i]).1) by {
        assert(decreases_to!(fields => fields[i]));
        lemma_value(fields[i].1, html);
    }
    json::lemma_object(fields, html);
    lemma_object_value(ps, html);
}

/// A text that is one value is a document.
proof fn lemma_document(t: Seq<char>, opts: JsonOptions)
    requires
        one_value(t),
    ensures
        scan::text_fault(encode_utf8(json::finished(t, opts))) is None,
{
    let e = encode_utf8(t);
    let n = e.len() as int;
    let nl = seq!['\n'];
    let s = encode_utf8(json::finished(t, opts));
    text::lemma_encode_concat(t, nl);
    assert(t.push('\n') =~= t + nl);
    is_ascii_chars_encode_utf8(nl);
    text::lemma_stands_whole(s);
    if opts.trailing_newline {
        assert(s == e + encode_utf8(nl));
        text::lemma_stands_apart(s, 0, e, encode_utf8(nl));
        assert(s[e.len() as int] == encode_utf8(nl)[0]);
        assert(nl[0] as u8 == encode_utf8(nl)[0]);
        assert(scan::blank_end(s, n + 1) == n + 1);
    }
    assert(scan::value_end(s, 0) == Ok::<int, Seq<char>>(n));
}

/// What is written for any value is accepted as JSON.
pub proof fn law_values_are_json(v: JsonValue, opts: JsonOptions)
    ensures
        scan::text_fault(
            encode_utf8(json::finished(json::value_text(v, opts.escape_html), opts)),
        ) is None,
{
    lemma_value(v, opts.escape_html);
    lemma_document(json::value_text(v, opts.escape_html), opts);
}

/// What is written for any record is accepted as JSON.
pub proof fn law_records_are_json(fields: Seq<(&str, JsonValue)>, opts: JsonOptions)
    ensures
        scan::text_fault(
            encode_utf8(json::finished(json::record_text(fields, opts.escape_html), opts)),
        ) is None,
{
    let html = opts.escape_html;
    let ps = json::record_pairs(fields, html);
    assert forall|i: int| 0 <= i < ps.len() implies one_value((#[trigger] ps[i]).1) by {
        lemma_value(fields[i].1, html);
    }
    json::lemma_record(fields, html);
    lemma_object_value(ps, html);
    lemma_document(json::record_text(fields, html), opts);
}

/// What is written for any object with sorted keys is accepted as JSON.
pub proof fn law_maps_are_json(m: JsonMap, opts: JsonOptions)
    ensures
        scan::text_fault(
            encode_utf8(json::finished(json::object_text(m.members(), opts.escape_html), opts)),
        ) is None,
{
    law_values_are_json(JsonValue::Dict(m), opts);
}

// ---------------------------------------------------------------------------
// Characters
// ---------------------------------------------------------------------------

/// Neither a control character nor, with HTML escapes, one of `<`, `>` and `&`.
pub open spec fn plain_char(c: char, html: bool) -> bool {
    c as u32 >= 0x20 && (html ==> c != '<' && c != '>' && c != '&')
}

/// Whether text holds none but plain characters.
pub open spec fn clean(t: Seq<char>, html: bool) -> bool {
    forall|i: int| 0 <= i < t.len() ==> plain_char(#[trigger] t[i], html)
}

proof fn lemma_clean_concat(a: Seq<char>, b: Seq<char>, html: bool)
    requires
        clean(a, html),
        clean(b, html),
    ensures
        clean(a + b, html),
{
    assert forall|i: int| 0 <= i < (a + b).len() implies plain_char(#[trigger] (a + b)[i], html) by {
        if i < a.len() {
            assert((a + b)[i] == a[i]);
        } else {
            assert((a + b)[i] == b[i - a.len()]);
        }
    }
}

proof fn lemma_clean_escape(n: nat, html: bool)
    ensures
        clean(json::unicode_escape(n), html),
{
    reveal_strlit("\\u");
    text::lemma_hex_reads_back(n);
    let h = text::hex(n);
    assert forall|i: int| 0 <= i < h.len() implies plain_char(#[trigger] h[i], html) by {
        assert(text::is_digit(h[i]) || 'a' <= h[i] <= 'f');
    }
    let t = text::zero_fill(h, 4);
    assert forall|i: int| 0 <= i < t.len() implies plain_char(#[trigger] t[i], html) by {
        if t.len() > h.len() && i >= t.len() - h.len() {
            assert(t[i] == h[i - (t.len() - h.len())]);
        }
    }
    lemma_clean_concat("\\u"@, t, html);
}

proof fn lemma_clean_char(c: char, html: bool)
    ensures
        clean(json::char_text(c, html), html),
{
    reveal_strlit("\\\"");
    reveal_strlit("\\\\");
    reveal_strlit("\\n");
    reveal_strlit("\\r");
    reveal_strlit("\\t");
    reveal_strlit("\\b");
    reveal_strlit("\\f");
    lemma_clean_escape(c as nat, html);
}

proof fn lemma_clean_string(s: Seq<char>, html: bool)
    ensures
        clean(json::string_text(s, html), html),
{
    lemma_clean_chars(s, html);
    lemma_clean_concat(seq!['"'], json::chars_text(s, html), html);
    lemma_clean_concat(seq!['"'] + json::chars_text(s, html), seq!['"'], html);
}

proof fn lemma_clean_chars(s: Seq<char>, html: bool)
    ensures
        clean(json::chars_text(s, html), html),
    decreases s.len(),
{
    if s.len() > 0 {
        lemma_clean_chars(s.drop_last(), html);
        lemma_clean_char(s[s.len() - 1], html);
        lemma_clean_concat(
            json::chars_text(s.drop_last(), html),
            json::char_text(s.last(), html),
            html,
        );
    }
}

proof fn lemma_clean_number(n: int, html: bool)
    ensures
        clean(text::dec_int(n), html),
{
    let m = if n < 0 {
        (-n) as nat
    } else {
        n as nat
    };
    text::lemma_dec_reads_back(m);
    let d = text::dec(m);
    assert forall|i: int| 0 <= i < d.len() implies plain_char(#[trigger] d[i], html) by {
        assert(text::is_digit(d[i]));
    }
    lemma_clean_concat(seq!['-'], d, html);
}

proof fn lemma_clean_list(ts: Seq<Seq<char>>, n: nat, html: bool)
    requires
        n <= ts.len(),
        forall|i: int| 0 <= i < ts.len() ==> clean(#[trigger] ts[i], html),
    ensures
        clean(list_text(ts, n), html),
    decreases n,
{
    if n > 0 {
        lemma_clean_list(ts, (n - 1) as nat, html);
        let front = list_text(ts, (n - 1) as nat);
        lemma_clean_concat(front, json::comma(n), html);
        lemma_clean_concat(front + json::comma(n), ts[n - 1], html);
    }
}

proof fn lemma_clean_brackets(ts: Seq<Seq<char>>, open: char, close: char, html: bool)
    requires
        plain_char(open, html),
        plain_char(close, html),
        forall|i: int| 0 <= i < ts.len() ==> clean(#[trigger] ts[i], html),
    ensures
        clean(seq![open] + list_text(ts, ts.len()) + seq![close], html),
{
    lemma_clean_list(ts, ts.len(), html);
    lemma_clean_concat(seq![open], list_text(ts, ts.len()), html);
    lemma_clean_concat(seq![open] + list_text(ts, ts.len()), seq![close], html);
}

proof fn lemma_clean_object(ps: Seq<(Seq<char>, Seq<char>)>, html: bool)
    requires
        forall|i: int| 0 <= i < ps.len() ==> clean((#[trigger] ps[i]).1, html),
    ensures
        clean(json::object_of(ps, html), html),
{
    let ts = member_texts(ps, html);
    assert forall|i: int| 0 <= i < ts.len() implies clean(#[trigger] ts[i], html) by {
        lemma_clean_string(ps[i].0, html);
        lemma_clean_concat(json::string_text(ps[i].0, html), seq![':'], html);
        lemma_clean_concat(json::string_text(ps[i].0, html) + seq![':'], ps[i].1, html);
    }
    lemma_pairs_list(ps, ps.len(), html);
    lemma_clean_brackets(ts, '{', '}', html);
}

proof fn lemma_clean_value(v: JsonValue, html: bool)
    ensures
        clean(json::value_text(v, html), html),
    decreases v, 1nat,
{
    reveal_strlit("null");
    reveal_strlit("true");
    reveal_strlit("false");
    match v {
        JsonValue::Null => {},
        JsonValue::Bool(_) => {},
        JsonValue::Number(n) => lemma_clean_number(n as int, html),
        JsonValue::String(t) => lemma_clean_string(t@, html),
        JsonValue::Array(items) => {
            let ts = item_texts(items@, html);
            assert forall|i: int| 0 <= i < ts.len() implies clean(#[trigger] ts[i], html) by {
                assert(decreases_to!(v => items));
                assert(decreases_to!(items => items@[i]));
                lemma_clean_value(items@[i], html);
            }
            lemma_items_list(items@, items@.len(), html);
            lemma_clean_brackets(ts, '[', ']', html);
        },
        JsonValue::Struct(fields) => {
            assert(decreases_to!(v => fields));
            lemma_clean_members(v, fields@, html);
        },
        JsonValue::Dict(m) => {
            json::lemma_members_smaller(v);
            lemma_clean_members(v, m.members(), html);
        },
    }
}

proof fn lemma_clean_members(v: JsonValue, fields: Seq<(String, JsonValue)>, html: bool)
    requires
        decreases_to!(v => fields),
    ensures
        clean(json::object_text(fields, html), html),
    decreases v, 0nat,
{
    let ps = json::member_pairs(fields, html);
    assert forall|i: int| 0 <= i < ps.len() implies clean((#[trigger] ps[i]).1, html) by {
        assert(decreases_to!(fields => fields[i]));
        lemma_clean_value(fields[i].1, html);
    }
    json::lemma_object(fields, html);
    lemma_clean_object(ps, html);
}

/// Neither a control byte nor, with HTML escapes, one of `<`, `>` and `&`.
pub open spec fn plain_byte(b: u8, html: bool) -> bool {
    b >= 0x20 && (html ==> b != '<' as u8 && b != '>' as u8 && b != '&' as u8)
}

/// Whether bytes are plain, but for a line feed at the end exactly where the options ask for one.
pub open spec fn one_plain_line(out: Seq<u8>, opts: JsonOptions) -> bool {
    &&& out.len() > 0
    &&& out.last() == '\n' as u8 <==> opts.trailing_newline
    &&& forall|i: int|
        0 <= i < out.len() - (if opts.trailing_newline { 1int } else { 0 }) ==> plain_byte(
            #[trigger] out[i],
            opts.escape_html,
        )
}

proof fn lemma_plain_scalar(c: char, html: bool)
    requires
        plain_char(c, html),
    ensures
        forall|i: int|
            0 <= i < encode_scalar(c as u32).len() ==> plain_byte(
                #[trigger] encode_scalar(c as u32)[i],
                html,
            ),
{
    text::lemma_encode_char(c);
}

proof fn lemma_clean_bytes(t: Seq<char>, html: bool)
    requires
        clean(t, html),
    ensures
        forall|i: int|
            0 <= i < encode_utf8(t).len() ==> plain_byte(#[trigger] encode_utf8(t)[i], html),
        encode_utf8(t).len() >= t.len(),
    decreases t.len(),
{
    if t.len() > 0 {
        let rest = t.drop_first();
        assert forall|i: int| 0 <= i < rest.len() implies plain_char(#[trigger] rest[i], html) by {
            assert(rest[i] == t[i + 1]);
        }
        lemma_clean_bytes(rest, html);
        assert(plain_char(t[0], html));
        lemma_plain_scalar(t[0], html);
        text::lemma_encode_char(t[0]);
        let head = encode_scalar(t[0] as u32);
        let e = encode_utf8(t);
        assert(e =~= head + encode_utf8(rest));
        assert forall|i: int| 0 <= i < e.len() implies plain_byte(#[trigger] e[i], html) by {
            if i < head.len() {
                assert(e[i] == head[i]);
            } else {
                assert(e[i] == encode_utf8(rest)[i - head.len()]);
            }
        }
    }
}

proof fn lemma_plain_line(t: Seq<char>, opts: JsonOptions)
    requires
        clean(t, opts.escape_html),
        t.len() > 0,
    ensures
        one_plain_line(encode_utf8(json::finished(t, opts)), opts),
{
    let e = encode_utf8(t);
    lemma_clean_bytes(t, opts.escape_html);
    if opts.trailing_newline {
        let nl = seq!['\n'];
        assert(t.push('\n') =~= t + nl);
        text::lemma_encode_concat(t, nl);
        is_ascii_chars_encode_utf8(nl);
        assert(nl[0] as u8 == encode_utf8(nl)[0]);
        let out = encode_utf8(json::finished(t, opts));
        assert(out == e + encode_utf8(nl));
        assert forall|i: int| 0 <= i < out.len() - 1 implies plain_byte(
            #[trigger] out[i],
            opts.escape_html,
        ) by {
            assert(out[i] == e[i]);
        }
    } else {
        assert(plain_byte(e[e.len() - 1], opts.escape_html));
    }
}

/// What is written for any value stands on one line without control bytes, and with HTML escapes
/// without `<`, `>` and `&`.
pub proof fn law_values_are_plain(v: JsonValue, opts: JsonOptions)
    ensures
        one_plain_line(
            encode_utf8(json::finished(json::value_text(v, opts.escape_html), opts)),
            opts,
        ),
{
    let t = json::value_text(v, opts.escape_html);
    lemma_clean_value(v, opts.escape_html);
    lemma_value(v, opts.escape_html);
    assert(t.len() > 0) by {
        if t.len() == 0 {
            assert(encode_utf8(t) =~= Seq::<u8>::empty());
        }
    }
    lemma_plain_line(t, opts);
}

/// What is written for any record stands on one line without control bytes, and with HTML escapes
/// without `<`, `>` and `&`. Its members stand in the order given.
pub proof fn law_records_are_plain(fields: Seq<(&str, JsonValue)>, opts: JsonOptions)
    ensures
        one_plain_line(
            encode_utf8(json::finished(json::record_text(fields, opts.escape_html), opts)),
            opts,
        ),
        json::record_text(fields, opts.escape_html) == json::object_of(
            json::record_pairs(fields, opts.escape_html),
            opts.escape_html,
        ),
{
    let html = opts.escape_html;
    let ps = json::record_pairs(fields, html);
    assert forall|i: int| 0 <= i < ps.len() implies clean((#[trigger] ps[i]).1, html) by {
        lemma_clean_value(fields[i].1, html);
    }
    json::lemma_record(fields, html);
    lemma_clean_object(ps, html);
    lemma_plain_line(json::record_text(fields, html), opts);
}

/// What is written for any object with sorted keys stands on one line without control bytes, and
/// with HTML escapes without `<`, `>` and `&`.
pub proof fn law_maps_are_plain(m: JsonMap, opts: JsonOptions)
    ensures
        one_plain_line(
            encode_utf8(json::finished(json::object_text(m.members(), opts.escape_html), opts)),
            opts,
        ),
{
    law_values_are_plain(JsonValue::Dict(m), opts);
}

/// An empty array is written as one, never as `null`.
pub proof fn law_empty_array_is_written(items: Vec<JsonValue>, html: bool)
    requires
        items@.len() == 0,
    ensures
        json::value_text(JsonValue::Array(items), html) == seq!['[', ']'],
{
    assert(json::items_text(items@, 0, html) =~= Seq::<char>::empty());
    assert(json::value_text(JsonValue::Array(items), html) =~= seq!['[', ']']);
}

// ---------------------------------------------------------------------------
// Text fields
// ---------------------------------------------------------------------------

/// Whether no character of a text is escaped when it is written.
pub open spec fn unescaped(t: Seq<char>, html: bool) -> bool {
    forall|i: int| 0 <= i < t.len() ==> json::char_text(#[trigger] t[i], html) == seq![t[i]]
}

proof fn lemma_unescaped(t: Seq<char>, html: bool)
    requires
        unescaped(t, html),
    ensures
        json::chars_text(t, html) == t,
    decreases t.len(),
{
    if t.len() > 0 {
        let r = t.drop_last();
        assert forall|i: int| 0 <= i < r.len() implies json::char_text(#[trigger] r[i], html)
            == seq![r[i]] by {
            assert(r[i] == t[i]);
        }
        lemma_unescaped(r, html);
        assert(json::char_text(t[t.len() - 1], html) == seq![t[t.len() - 1]]);
        assert(r + seq![t.last()] =~= t);
    } else {
        assert(json::chars_text(t, html) =~= t);
    }
}

proof fn lemma_quote_bytes(s: Seq<u8>, pos: int, n: nat)
    requires
        0 <= pos,
        pos + n <= s.len(),
        forall|i: int|
            pos <= i < pos + n ==> #[trigger] s[i] >= 0x20 && s[i] != '"' as u8 && s[i] != '\\' as u8,
    ensures
        fields::closing_quote(s, pos) == fields::closing_quote(s, pos + n),
    decreases n,
{
    if n > 0 {
        assert(s[pos] >= 0x20);
        lemma_quote_bytes(s, pos + 1, (n - 1) as nat);
    }
}

/// Text without escapes is passed over on the way to the closing quote.
proof fn lemma_quote_text(s: Seq<u8>, pos: int, t: Seq<char>, html: bool)
    requires
        unescaped(t, html),
        text::stands_at(s, pos, encode_utf8(t)),
    ensures
        fields::closing_quote(s, pos) == fields::closing_quote(s, pos + encode_utf8(t).len()),
    decreases t.len(),
{
    if t.len() > 0 {
        let r = t.drop_last();
        let last = seq![t.last()];
        assert(t =~= r + last);
        text::lemma_encode_concat(r, last);
        text::lemma_stands_apart(s, pos, encode_utf8(r), encode_utf8(last));
        assert forall|i: int| 0 <= i < r.len() implies json::char_text(#[trigger] r[i], html)
            == seq![r[i]] by {
            assert(r[i] == t[i]);
        }
        lemma_quote_text(s, pos, r, html);
        lemma_quote_char(s, pos + encode_utf8(r).len(), t[t.len() - 1], html);
    }
}

proof fn lemma_quote_char(s: Seq<u8>, pos: int, c: char, html: bool)
    requires
        json::char_text(c, html) == seq![c],
        text::stands_at(s, pos, encode_utf8(seq![c])),
    ensures
        fields::closing_quote(s, pos) == fields::closing_quote(s, pos + encode_utf8(seq![c]).len()),
{
    let t = seq![c];
    reveal_strlit("\\\"");
    reveal_strlit("\\\\");
    reveal_strlit("\\n");
    reveal_strlit("\\r");
    reveal_strlit("\\t");
    reveal_strlit("\\b");
    reveal_strlit("\\f");
    reveal_strlit("\\u");
    assert(t.len() == 1);
    assert(c != '"' && c != '\\' && c as u32 >= 0x20) by {
        if (c as u32) < 0x20 && c != '\n' && c != '\r' && c != '\t' && c as u32 != 8 && c as u32
            != 12 {
            assert(json::unicode_escape(c as nat).len() >= 2);
        }
    }
    text::lemma_encode_char(c);
    assert(t.drop_first() =~= Seq::<char>::empty());
    let e = encode_utf8(t);
    assert(encode_utf8(t.drop_first()) =~= Seq::<u8>::empty());
    assert(e =~= encode_scalar(c as u32));
    reveal(text::stands_at);
    assert forall|i: int| pos <= i < pos + e.len() implies #[trigger] s[i] >= 0x20 && s[i]
        != '"' as u8 && s[i] != '\\' as u8 by {
        assert(s[i] == s.subrange(pos, pos + e.len())[i - pos]);
    }
    lemma_quote_bytes(s, pos, e.len());
}

/// A written text without escapes is read as it was.
proof fn lemma_text_at(s: Seq<u8>, pos: int, t: Seq<char>, html: bool)
    requires
        unescaped(t, html),
        text::stands_at(s, pos, encode_utf8(json::string_text(t, html))),
    ensures
        0 <= pos < s.len(),
        s[pos] == '"' as u8,
        fields::string_at(s, pos) == Ok::<(Seq<char>, int), Seq<char>>(
            (t, pos + encode_utf8(json::string_text(t, html)).len()),
        ),
        encode_utf8(json::string_text(t, html)).len() >= 2,
        pos + encode_utf8(json::string_text(t, html)).len() <= s.len(),
{
    lemma_unescaped(t, html);
    let q = seq!['"'];
    text::lemma_encode_concat(q + t, q);
    text::lemma_encode_concat(q, t);
    text::lemma_stands_apart(s, pos, encode_utf8(q) + encode_utf8(t), encode_utf8(q));
    text::lemma_stands_apart(s, pos, encode_utf8(q), encode_utf8(t));
    lemma_ascii_stands(s, pos, q);
    assert(s[pos + 0] == q[0] as u8);
    lemma_quote_text(s, pos + 1, t, html);
    let end = pos + 1 + encode_utf8(t).len();
    lemma_ascii_stands(s, end, q);
    assert(s[end + 0] == q[0] as u8);
    encode_utf8_valid_utf8(t);
    encode_utf8_decode_utf8(t);
    assert(s.subrange(pos + 1, end) == encode_utf8(t)) by {
        reveal(text::stands_at);
    }
}

/// Members whose values are texts.
pub open spec fn text_members(ps: Seq<(Seq<char>, Seq<char>)>, html: bool) -> Seq<
    (Seq<char>, Seq<char>),
> {
    Seq::new(ps.len(), |i: int| (ps[i].0, json::string_text(ps[i].1, html)))
}

/// The text that counts for `key` among the members from the `k`th on, behind others that gave
/// `found`: that of the last one with this name, in any letter case.
pub open spec fn last_text(
    ps: Seq<(Seq<char>, Seq<char>)>,
    k: nat,
    key: Seq<char>,
    found: Option<Seq<char>>,
) -> Option<Seq<char>>
    decreases ps.len() - k,
{
    if k >= ps.len() {
        found
    } else {
        last_text(
            ps,
            k + 1,
            key,
            if text::eq_no_case(ps[k as int].0, key) {
                Some(ps[k as int].1)
            } else {
                found
            },
        )
    }
}

/// Whether a place found so far holds the text found so far.
pub open spec fn holds_text(s: Seq<u8>, at: Option<int>, found: Option<Seq<char>>) -> bool {
    match (at, found) {
        (Some(i), Some(t)) => fields::string_at(s, i) matches Ok((u, _)) && u == t,
        (None, None) => true,
        _ => false,
    }
}

/// Key and value of a member are found.
proof fn lemma_text_member(s: Seq<u8>, p: int, m: (Seq<char>, Seq<char>), html: bool)
    requires
        unescaped(m.0, html),
        unescaped(m.1, html),
        text::stands_at(
            s,
            p,
            encode_utf8(member_text((m.0, json::string_text(m.1, html)), html)),
        ),
    ensures
        ({
            let k = p + encode_utf8(json::string_text(m.0, html)).len();
            let v = p + encode_utf8(member_text((m.0, json::string_text(m.1, html)), html)).len();
            &&& 0 <= p < s.len()
            &&& s[p] == '"' as u8
            &&& fields::string_at(s, p) == Ok::<(Seq<char>, int), Seq<char>>((m.0, k))
            &&& p + 1 < k
            &&& k + 1 < v <= s.len()
            &&& s[k] == ':' as u8
            &&& s[k + 1] == '"' as u8
            &&& fields::string_at(s, k + 1) == Ok::<(Seq<char>, int), Seq<char>>((m.1, v))
        }),
{
    let key = json::string_text(m.0, html);
    let value = json::string_text(m.1, html);
    let c = seq![':'];
    assert(member_text((m.0, value), html) =~= key + (c + value));
    text::lemma_encode_concat(key, c + value);
    text::lemma_encode_concat(c, value);
    text::lemma_stands_apart(s, p, encode_utf8(key), encode_utf8(c) + encode_utf8(value));
    lemma_text_at(s, p, m.0, html);
    let k = p + encode_utf8(key).len();
    text::lemma_stands_apart(s, k, encode_utf8(c), encode_utf8(value));
    lemma_ascii_stands(s, k, c);
    assert(s[k + 0] == c[0] as u8);
    lemma_text_at(s, k + 1, m.1, html);
}

/// The members from the `k`th on are looked through.
proof fn lemma_look_through(
    s: Seq<u8>,
    p: int,
    ps: Seq<(Seq<char>, Seq<char>)>,
    html: bool,
    k: nat,
    key: Seq<char>,
    at: Option<int>,
    found: Option<Seq<char>>,
)
    requires
        k < ps.len(),
        forall|i: int|
            0 <= i < ps.len() ==> unescaped((#[trigger] ps[i]).0, html) && unescaped(
                ps[i].1,
                html,
            ),
        text::stands_at(s, p, encode_utf8(member_text(text_members(ps, html)[k as int], html))),
        text::stands_at(
            s,
            p + encode_utf8(member_text(text_members(ps, html)[k as int], html)).len(),
            encode_utf8(
                tail_text(member_texts(text_members(ps, html), html), k + 1) + seq!['}'],
            ),
        ),
        holds_text(s, at, found),
    ensures
        match last_text(ps, k, key, found) {
            Some(t) => fields::last_field(s, p, key, false, at) matches Ok(i) && holds_text(
                s,
                Some(i),
                Some(t),
            ),
            None => fields::last_field(s, p, key, false, at) == Err::<int, _>("missing field"@),
        },
    decreases ps.len() - k,
{
    let ms = text_members(ps, html);
    let ts = member_texts(ms, html);
    let v = p + encode_utf8(member_text(ms[k as int], html)).len();
    assert(unescaped(ps[k as int].0, html) && unescaped(ps[k as int].1, html));
    lemma_text_member(s, p, ps[k as int], html);
    lemma_behind_item(s, v, ts, k + 1, '}');
    let c = p + encode_utf8(json::string_text(ps[k as int].0, html)).len();
    assert(syntax::ws_end(s, p) == p);
    assert(syntax::ws_end(s, c) == c);
    assert(syntax::ws_end(s, c + 1) == c + 1);
    assert(syntax::ws_end(s, v) == v);
    let wanted = text::eq_no_case(ps[k as int].0, key);
    let next_at = if wanted {
        Some(c + 1)
    } else {
        at
    };
    let next_found = if wanted {
        Some(ps[k as int].1)
    } else {
        found
    };
    if k + 1 < ps.len() {
        lemma_look_through(s, v + 1, ps, html, k + 1, key, next_at, next_found);
    }
}

/// From an object whose members are texts without escapes, the text of the last member of a name
/// is read as it was written, and nothing where there is no such member.
pub proof fn law_text_fields_read_back(
    ps: Seq<(Seq<char>, Seq<char>)>,
    key: Seq<char>,
    html: bool,
)
    requires
        forall|i: int|
            0 <= i < ps.len() ==> unescaped((#[trigger] ps[i]).0, html) && unescaped(
                ps[i].1,
                html,
            ),
    ensures
        fields::text_or_empty(
            encode_utf8(json::object_of(text_members(ps, html), html)),
            key,
        ) == match last_text(ps, 0, key, None) {
            Some(t) => t,
            None => Seq::empty(),
        },
{
    let ms = text_members(ps, html);
    let ts = member_texts(ms, html);
    lemma_pairs_list(ms, ms.len(), html);
    let whole = json::object_of(ms, html);
    let s = encode_utf8(whole);
    text::lemma_stands_whole(s);
    lemma_in_brackets(s, 0, ts, '{', '}');
    assert(s.last() == '}' as u8) by {
        let front = seq!['{'] + list_text(ts, ts.len());
        text::lemma_encode_concat(front, seq!['}']);
        is_ascii_chars_encode_utf8(seq!['}']);
        assert(seq!['}'][0] as u8 == encode_utf8(seq!['}'])[0]);
    }
    assert(syntax::trimmed(s) == s);
    if ps.len() > 0 {
        assert(unescaped(ps[0].0, html) && unescaped(ps[0].1, html));
        lemma_text_member(s, 1, ps[0], html);
        assert(syntax::ws_end(s, 1) == 1);
        lemma_look_through(s, 1, ps, html, 0, key, None, None);
    } else {
        assert(syntax::ws_end(s, 1) == 1);
    }
}

/// The addresses in the body of an unlock request are read as they were written.
pub proof fn law_unlock_body_reads_back(from: Seq<char>, to: Seq<char>, html: bool)
    requires
        unescaped(from, html),
        unescaped(to, html),
    ensures
        ({
            let ps = seq![("from"@, from), ("to"@, to)];
            let raw = encode_utf8(json::object_of(text_members(ps, html), html));
            &&& fields::text_or_empty(raw, "from"@) == from
            &&& fields::text_or_empty(raw, "to"@) == to
        }),
{
    reveal_strlit("from");
    reveal_strlit("to");
    let ps = seq![("from"@, from), ("to"@, to)];
    assert(unescaped("from"@, html)) by {
        assert forall|i: int| 0 <= i < 4 implies json::char_text(#[trigger] "from"@[i], html)
            == seq!["from"@[i]] by {}
    }
    assert(unescaped("to"@, html)) by {
        assert forall|i: int| 0 <= i < 2 implies json::char_text(#[trigger] "to"@[i], html)
            == seq!["to"@[i]] by {}
    }
    law_text_fields_read_back(ps, "from"@, html);
    law_text_fields_read_back(ps, "to"@, html);
    assert(!text::eq_no_case("from"@, "to"@)) by {
        assert(text::lower_all("from"@).len() == 4);
        assert(text::lower_all("to"@).len() == 2);
    }
    reveal_with_fuel(last_text, 3);
}

// ---------------------------------------------------------------------------
// Answers
// ---------------------------------------------------------------------------

/// The bytes of the body of an answer.
pub open spec fn answer_body(body: Option<Seq<char>>) -> Seq<u8> {
    match body {
        Some(t) => encode_utf8(t),
        None => Seq::empty(),
    }
}

/// The header fields of an answer with a body of `n` bytes.
spec fn answer_fields(n: nat) -> Seq<header::FieldView> {
    seq![
        ("Connection"@, seq!["close"@]),
        ("Content-Length"@, seq![text::dec(n)]),
        ("Content-Type"@, seq!["application/json"@]),
    ]
}

proof fn lemma_answer_order(n: nat)
    ensures
        header::names_ascend(answer_fields(n)),
{
    reveal_strlit("Connection");
    reveal_strlit("Content-Length");
    reveal_strlit("Content-Type");
    let es = answer_fields(n);
    let (a, b, c) = ("Connection"@, "Content-Length"@, "Content-Type"@);
    assert(text::text_before(a, b)) by {
        reveal_with_fuel(text::text_before, 5);
        assert(a.drop_first().drop_first().drop_first()[0] == 'n');
        assert(b.drop_first().drop_first().drop_first()[0] == 't');
    }
    assert(text::text_before(a, c)) by {
        reveal_with_fuel(text::text_before, 5);
        assert(a.drop_first().drop_first().drop_first()[0] == 'n');
        assert(c.drop_first().drop_first().drop_first()[0] == 't');
    }
    assert(text::text_before(b, c)) by {
        reveal_with_fuel(text::text_before, 10);
        let (x, y) = (
            b.drop_first().drop_first().drop_first().drop_first(),
            c.drop_first().drop_first().drop_first().drop_first(),
        );
        assert(x.drop_first().drop_first().drop_first().drop_first()[0] == 'L');
        assert(y.drop_first().drop_first().drop_first().drop_first()[0] == 'T');
    }
    assert forall|i: int, j: int| 0 <= i < j < es.len() implies text::text_before(
        (#[trigger] es[i]).0,
        (#[trigger] es[j]).0,
    ) by {
        assert(es[0].0 == a && es[1].0 == b && es[2].0 == c);
    }
}

proof fn lemma_answer_fields(n: nat)
    requires
        n <= parse::MAX_BODY_BYTES,
    ensures
        exchange::plain_fields(answer_fields(n)),
{
    header::lemma_names();
    lemma_answer_order(n);
    reveal_strlit("Connection");
    reveal_strlit("Content-Length");
    reveal_strlit("Content-Type");
    reveal_strlit("close");
    reveal_strlit("application/json");
    text::lemma_trim_tight("Connection"@);
    text::lemma_trim_tight("Content-Length"@);
    text::lemma_trim_tight("Content-Type"@);
    text::lemma_trim_tight("close"@);
    text::lemma_trim_tight("application/json"@);
    text::lemma_dec_reads_back(n);
    let d = text::dec(n);
    assert(d.len() <= 7) by {
        reveal_with_fuel(text::dec, 8);
    }
    assert(text::is_digit(d[0]) && text::is_digit(d[d.len() - 1]));
    text::lemma_trim_tight(d);
    assert(is_ascii_chars(d) && exchange::one_line(d)) by {
        assert forall|i: int| 0 <= i < d.len() implies '\0' <= #[trigger] d[i] <= '\u{7f}' && d[i]
            != '\n' by {
            assert(text::is_digit(d[i]));
        }
    }
    let es = answer_fields(n);
    assert(exchange::short_field(es[0]));
    assert(exchange::short_field(es[1]));
    assert(exchange::short_field(es[2]));
    exchange::lemma_short_fields(es);
}

proof fn lemma_answer_map(n: nat)
    ensures
        header::map_of(answer_fields(n)) == Map::<Seq<char>, Seq<Seq<char>>>::empty().insert(
            "Content-Type"@,
            seq!["application/json"@],
        ).insert("Content-Length"@, seq![text::dec(n)]).insert("Connection"@, seq!["close"@]),
{
    let es = answer_fields(n);
    let none = Seq::<header::FieldView>::empty();
    assert(es.drop_first() =~= seq![es[1], es[2]]);
    assert(es.drop_first().drop_first() =~= seq![es[2]]);
    assert(es.drop_first().drop_first().drop_first() =~= none);
    reveal_with_fuel(header::map_of, 4);
}

/// What an endpoint answers is what goes out, and the client reads it: the status, the type and
/// the bytes of the body.
pub proof fn law_answer_reaches_client(
    status: u16,
    body: Option<Seq<char>>,
    ended: bool,
    short: Seq<char>,
)
    requires
        100 <= status <= 999,
        answer_body(body).len() <= parse::MAX_BODY_BYTES,
    ensures
        ({
            let r = super::json_reply(crate::httpx::blank_reply(), status, body);
            &&& r.begun(crate::httpx::STATUS_OK) == r
            &&& parse::response_at(response::finished_wire(r), ended, short) matches
                ResponseProgress::Done { status: s, header: h, body: b }
            &&& s == status
            &&& header::field(h, "Content-Type"@) == Some("application/json"@)
            &&& b == answer_body(body)
        }),
{
    header::lemma_names();
    let sent = answer_body(body);
    let n = sent.len();
    let blank = crate::httpx::blank_reply();
    let r = super::json_reply(blank, status, body);
    let es = answer_fields(n);
    assert(text::dec(0) =~= "0"@) by {
        reveal_strlit("0");
    }
    lemma_answer_fields(n);
    lemma_answer_map(n);
    reveal_strlit("Connection");
    reveal_strlit("Content-Length");
    reveal_strlit("Content-Type");
    reveal_strlit("Transfer-Encoding");
    assert(r.sent->0.header =~= header::map_of(es));
    assert(r.pieces =~= if n == 0 {
        Seq::empty()
    } else {
        seq![sent]
    });
    assert(exchange::joined(r.pieces) =~= sent) by {
        let none = Seq::<Seq<u8>>::empty();
        assert(response::body_bytes(none, false) =~= Seq::<u8>::empty());
        if n > 0 {
            assert(r.pieces.drop_last() =~= none);
        }
    }
    exchange::law_response_reads_back(r, es, ended, short);
}

} // verus!
