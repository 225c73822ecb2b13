//! JSON output.
//!
//! Two kinds of objects: records, whose keys come in the order given, and maps, whose keys
//! come sorted.

use vstd::prelude::*;
use vstd::string::*;
use vstd::utf8::*;

use crate::text;
use crate::text::{chars_of, push_bytes, push_dec_int, push_hex, push_zero_filled, sorts_before};

verus! {

/// A JSON value.
#[derive(Debug)]
pub enum JsonValue {
    Null,
    Bool(bool),
    Number(i64),
    String(String),
    Array(Vec<JsonValue>),
    /// An object with its keys in the order given.
    Struct(Vec<(String, JsonValue)>),
    /// An object with its keys sorted.
    Dict(JsonMap),
}

/// The members of an object, sorted by key, each key once.
#[derive(Debug)]
pub struct JsonMap {
    entries: Vec<(String, JsonValue)>,
}

/// How a value is written.
#[derive(Debug, Clone, Copy, PartialEq, Eq, Structural)]
pub struct JsonOptions {
    /// Write `<`, `>` and `&` as escapes.
    pub escape_html: bool,
    /// End with a line feed.
    pub trailing_newline: bool,
}

impl JsonOptions {
    /// HTML escapes and no line feed: responses and events.
    pub fn marshal() -> (o: JsonOptions)
        ensures
            o.escape_html && !o.trailing_newline,
    {
        JsonOptions { escape_html: true, trailing_newline: false }
    }

    /// No HTML escapes and a line feed: the self-description.
    pub fn encode() -> (o: JsonOptions)
        ensures
            !o.escape_html && o.trailing_newline,
    {
        JsonOptions { escape_html: false, trailing_newline: true }
    }
}

// ---------------------------------------------------------------------------
// Strings
// ---------------------------------------------------------------------------

/// `\u` and four hex digits.
pub open spec fn unicode_escape(code: nat) -> Seq<char> {
    "\\u"@ + text::zero_fill(text::hex(code), 4)
}

/// One character of a string as it is written between the quotes.
pub open spec fn char_text(c: char, html: bool) -> Seq<char> {
    if c == '"' {
        "\\\""@
    } else if c == '\\' {
        "\\\\"@
    } else if c == '\n' {
        "\\n"@
    } else if c == '\r' {
        "\\r"@
    } else if c == '\t' {
        "\\t"@
    } else if c as u32 == 8 {
        "\\b"@
    } else if c as u32 == 12 {
        "\\f"@
    } else if (c as u32) < 32 || c as u32 == 0x2028 || c as u32 == 0x2029 || html && (c == '<'
        || c == '>' || c == '&') {
        unicode_escape(c as nat)
    } else {
        seq![c]
    }
}

/// The characters of a string, one after the other.
pub open spec fn chars_text(s: Seq<char>, html: bool) -> Seq<char>
    decreases s.len(),
{
    if s.len() == 0 {
        Seq::empty()
    } else {
        chars_text(s.drop_last(), html) + char_text(s.last(), html)
    }
}

/// A string in its quotes.
pub open spec fn string_text(s: Seq<char>, html: bool) -> Seq<char> {
    seq!['"'] + chars_text(s, html) + seq!['"']
}

fn write_unicode_escape(out: &mut String, code: u32)
    ensures
        final(out)@ == old(out)@ + unicode_escape(code as nat),
{
    let mut digits = String::new();
    push_hex(&mut digits, code as u64);
    out.append("\\u");
    push_zero_filled(out, digits.as_str(), 4);
    assert(digits@ =~= text::hex(code as nat));
    assert(out@ =~= old(out)@ + unicode_escape(code as nat));
}

fn write_char(out: &mut String, c: char, html: bool)
    ensures
        final(out)@ == old(out)@ + char_text(c, html),
{
    if c == '"' {
        out.append("\\\"");
    } else if c == '\\' {
        out.append("\\\\");
    } else if c == '\n' {
        out.append("\\n");
    } else if c == '\r' {
        out.append("\\r");
    } else if c == '\t' {
        out.append("\\t");
    } else if c as u32 == 8 {
        out.append("\\b");
    } else if c as u32 == 12 {
        out.append("\\f");
    } else if (c as u32) < 32 || c as u32 == 0x2028 || c as u32 == 0x2029 || html && (c == '<'
        || c == '>' || c == '&') {
        write_unicode_escape(out, c as u32);
    } else {
        out.push(c);
        assert(out@ =~= old(out)@ + seq![c]);
    }
}

/// Appends a string in its quotes.
pub fn write_string(out: &mut String, s: &str, html: bool)
    ensures
        final(out)@ == old(out)@ + string_text(s@, html),
{
    let cs = chars_of(s);
    out.push('"');
    let mut i: usize = 0;
    assert(out@ =~= old(out)@ + seq!['"'] + chars_text(cs@.take(0), html));
    while i < cs.len()
        invariant
            i <= cs.len(),
            out@ == old(out)@ + seq!['"'] + chars_text(cs@.take(i as int), html),
        decreases cs.len() - i,
    {
        assert(cs@.take(i + 1).drop_last() =~= cs@.take(i as int));
        assert(cs@.take(i + 1).last() == cs@[i as int]);
        write_char(out, cs[i], html);
        i += 1;
        assert(out@ =~= old(out)@ + seq!['"'] + chars_text(cs@.take(i as int), html));
    }
    assert(cs@.take(i as int) =~= s@);
    out.push('"');
    assert(out@ =~= old(out)@ + string_text(s@, html));
}

// ---------------------------------------------------------------------------
// Values
// ---------------------------------------------------------------------------

/// A comma before any but the first of a list.
pub open spec fn comma(n: nat) -> Seq<char> {
    if n > 1 {
        seq![',']
    } else {
        Seq::empty()
    }
}

/// A value as text.
pub open spec fn value_text(v: JsonValue, html: bool) -> Seq<char>
    decreases v, 0nat,
{
    match v {
        JsonValue::Null => "null"@,
        JsonValue::Bool(b) => if b {
            "true"@
        } else {
            "false"@
        },
        JsonValue::Number(n) => text::dec_int(n as int),
        JsonValue::String(s) => string_text(s@, html),
        JsonValue::Array(items) => seq!['['] + items_text(items@, items@.len(), html) + seq![']'],
        JsonValue::Struct(fields) => object_text(fields@, html),
        JsonValue::Dict(m) => object_text(m.members(), html),
    }
}

/// The first `n` items with commas between them.
pub open spec fn items_text(items: Seq<JsonValue>, n: nat, html: bool) -> Seq<char>
    decreases items, n,
{
    if n == 0 || n > items.len() {
        Seq::empty()
    } else {
        items_text(items, (n - 1) as nat, html) + comma(n) + value_text(items[n - 1], html)
    }
}

/// One member of an object.
pub open spec fn member_text(key: Seq<char>, v: JsonValue, html: bool) -> Seq<char>
    decreases v, 1nat,
{
    string_text(key, html) + seq![':'] + value_text(v, html)
}

/// The first `n` members with commas between them.
pub open spec fn members_text(fields: Seq<(String, JsonValue)>, n: nat, html: bool) -> Seq<char>
    decreases fields, n,
{
    if n == 0 || n > fields.len() {
        Seq::empty()
    } else {
        members_text(fields, (n - 1) as nat, html) + comma(n) + member_text(fields[n - 1].0@, fields[n - 1].1, html)
    }
}

/// An object in its braces.
pub open spec fn object_text(fields: Seq<(String, JsonValue)>, html: bool) -> Seq<char>
    decreases fields, fields.len() + 1,
{
    seq!['{'] + members_text(fields, fields.len(), html) + seq!['}']
}

/// Appends a value. The strings in it are escaped for HTML where `html` says so.
pub fn write_value(out: &mut String, value: &JsonValue, html: bool)
    ensures
        final(out)@ == old(out)@ + value_text(*value, html),
    decreases value, 0nat,
{
    match value {
        JsonValue::Null => {
            out.append("null");
        },
        JsonValue::Bool(b) => {
            out.append(if *b { "true" } else { "false" });
        },
        JsonValue::Number(n) => {
            push_dec_int(out, *n);
        },
        JsonValue::String(s) => {
            write_string(out, s.as_str(), html);
        },
        JsonValue::Array(items) => {
            out.push('[');
            let mut i: usize = 0;
            assert(out@ =~= old(out)@ + seq!['['] + items_text(items@, 0, html));
            while i < items.len()
                invariant
                    i <= items.len(),
                    decreases_to!(value => items),
                    out@ == old(out)@ + seq!['['] + items_text(items@, i as nat, html),
                decreases items.len() - i,
            {
                let ghost before = out@;
                if i > 0 {
                    out.push(',');
                }
                assert(out@ =~= before + comma((i + 1) as nat));
                write_value(out, &items[i], html);
                i += 1;
                assert(out@ =~= old(out)@ + seq!['['] + items_text(items@, i as nat, html));
            }
            out.push(']');
            assert(out@ =~= old(out)@ + value_text(*value, html));
        },
        JsonValue::Struct(fields) => {
            assert(decreases_to!(value => fields));
            write_object(out, fields, html);
        },
        JsonValue::Dict(m) => {
            assert(decreases_to!(value => m.entries));
            write_object(out, &m.entries, html);
        },
    }
}

fn write_member(out: &mut String, key: &str, value: &JsonValue, html: bool)
    ensures
        final(out)@ == old(out)@ + member_text(key@, *value, html),
    decreases value, 1nat,
{
    write_string(out, key, html);
    out.push(':');
    write_value(out, value, html);
    assert(out@ =~= old(out)@ + member_text(key@, *value, html));
}

fn write_object(out: &mut String, fields: &Vec<(String, JsonValue)>, html: bool)
    ensures
        final(out)@ == old(out)@ + object_text(fields@, html),
    decreases fields, 2nat,
{
    out.push('{');
    let mut i: usize = 0;
    assert(out@ =~= old(out)@ + seq!['{'] + members_text(fields@, 0, html));
    while i < fields.len()
        invariant
            i <= fields.len(),
            out@ == old(out)@ + seq!['{'] + members_text(fields@, i as nat, html),
        decreases fields.len() - i,
    {
        let ghost before = out@;
        if i > 0 {
            out.push(',');
        }
        assert(out@ =~= before + comma((i + 1) as nat));
        assert(decreases_to!(fields => fields@[i as int]));
        write_member(out, fields[i].0.as_str(), &fields[i].1, html);
        i += 1;
        assert(out@ =~= old(out)@ + seq!['{'] + members_text(fields@, i as nat, html));
    }
    out.push('}');
    assert(out@ =~= old(out)@ + object_text(fields@, html));
}

/// The text of a value under the options, with the line feed where they ask for one.
pub open spec fn finished(t: Seq<char>, opts: JsonOptions) -> Seq<char> {
    if opts.trailing_newline {
        t.push('\n')
    } else {
        t
    }
}

fn finish(t: String, opts: JsonOptions) -> (out: Vec<u8>)
    ensures
        out@ == encode_utf8(finished(t@, opts)),
{
    let mut t = t;
    if opts.trailing_newline {
        t.push('\n');
    }
    let mut out: Vec<u8> = Vec::new();
    push_bytes(&mut out, t.as_str());
    out
}

/// The first `n` members of a record with commas between them.
pub open spec fn fields_text(fields: Seq<(&str, JsonValue)>, n: nat, html: bool) -> Seq<char>
    decreases n,
{
    if n == 0 || n > fields.len() {
        Seq::empty()
    } else {
        fields_text(fields, (n - 1) as nat, html) + comma(n) + member_text(fields[n - 1].0@, fields[n - 1].1, html)
    }
}

/// A record in its braces.
pub open spec fn record_text(fields: Seq<(&str, JsonValue)>, html: bool) -> Seq<char> {
    seq!['{'] + fields_text(fields, fields.len(), html) + seq!['}']
}

/// The first `n` members, given by key and written value, with commas between them.
pub open spec fn pairs_text(pairs: Seq<(Seq<char>, Seq<char>)>, n: nat, html: bool) -> Seq<char>
    decreases n,
{
    if n == 0 || n > pairs.len() {
        Seq::empty()
    } else {
        pairs_text(pairs, (n - 1) as nat, html) + comma(n) + string_text(pairs[n - 1].0, html)
            + seq![':'] + pairs[n - 1].1
    }
}

/// An object whose members are given by key and written value.
pub open spec fn object_of(pairs: Seq<(Seq<char>, Seq<char>)>, html: bool) -> Seq<char> {
    seq!['{'] + pairs_text(pairs, pairs.len(), html) + seq!['}']
}

/// The members of a record by key and written value.
pub open spec fn record_pairs(fields: Seq<(&str, JsonValue)>, html: bool) -> Seq<
    (Seq<char>, Seq<char>),
> {
    Seq::new(fields.len(), |i: int| (fields[i].0@, value_text(fields[i].1, html)))
}

/// A record is the object of its members.
pub proof fn lemma_record(fields: Seq<(&str, JsonValue)>, html: bool)
    ensures
        record_text(fields, html) == object_of(record_pairs(fields, html), html),
{
    lemma_fields(fields, fields.len(), html);
}

proof fn lemma_fields(fields: Seq<(&str, JsonValue)>, n: nat, html: bool)
    requires
        n <= fields.len(),
    ensures
        fields_text(fields, n, html) == pairs_text(record_pairs(fields, html), n, html),
    decreases n,
{
    if n > 0 {
        lemma_fields(fields, (n - 1) as nat, html);
        let f = fields[n - 1];
        assert(record_pairs(fields, html)[n - 1] == (f.0@, value_text(f.1, html)));
        let head = fields_text(fields, (n - 1) as nat, html) + comma(n);
        assert(head + member_text(f.0@, f.1, html) =~= head + string_text(f.0@, html) + seq![':']
            + value_text(f.1, html));
    }
}

/// Writes a record with its keys in the order given.
pub fn encode_struct(fields: &[(&str, JsonValue)], opts: JsonOptions) -> (out: Vec<u8>)
    ensures
        out@ == encode_utf8(finished(record_text(fields@, opts.escape_html), opts)),
{
    let html = opts.escape_html;
    let mut t = String::new();
    t.push('{');
    let mut i: usize = 0;
    assert(t@ =~= seq!['{'] + fields_text(fields@, 0, html));
    while i < fields.len()
        invariant
            i <= fields.len(),
            t@ == seq!['{'] + fields_text(fields@, i as nat, html),
        decreases fields.len() - i,
    {
        let ghost before = t@;
        if i > 0 {
            t.push(',');
        }
        assert(t@ =~= before + comma((i + 1) as nat));
        let f = &fields[i];
        write_member(&mut t, f.0, &f.1, html);
        i += 1;
        assert(t@ =~= seq!['{'] + fields_text(fields@, i as nat, html));
    }
    t.push('}');
    assert(t@ =~= record_text(fields@, html));
    finish(t, opts)
}

/// Writes an object with its keys sorted.
pub fn encode_map(fields: &JsonMap, opts: JsonOptions) -> (out: Vec<u8>)
    ensures
        out@ == encode_utf8(finished(object_text(fields.members(), opts.escape_html), opts)),
{
    let mut t = String::new();
    write_object(&mut t, &fields.entries, opts.escape_html);
    assert(t@ =~= object_text(fields.members(), opts.escape_html));
    finish(t, opts)
}

/// Writes any value.
pub fn encode_value(value: &JsonValue, opts: JsonOptions) -> (out: Vec<u8>)
    ensures
        out@ == encode_utf8(finished(value_text(*value, opts.escape_html), opts)),
{
    let mut t = String::new();
    write_value(&mut t, value, opts.escape_html);
    assert(t@ =~= value_text(*value, opts.escape_html));
    finish(t, opts)
}

// ---------------------------------------------------------------------------
// Sorted members
// ---------------------------------------------------------------------------

/// The keys ascend.
pub open spec fn keys_ascend(s: Seq<(String, JsonValue)>) -> bool {
    forall|i: int, j: int| 0 <= i < j < s.len() ==> #[trigger] text::text_before(s[i].0@, s[j].0@)
}

/// `s` has the member `k: v`.
pub open spec fn has_member(s: Seq<(String, JsonValue)>, k: Seq<char>, v: JsonValue) -> bool {
    exists|i: int| 0 <= i < s.len() && (#[trigger] s[i]).0@ == k && s[i].1 == v
}

/// The members by key and written value.
pub open spec fn member_pairs(s: Seq<(String, JsonValue)>, html: bool) -> Seq<
    (Seq<char>, Seq<char>),
> {
    Seq::new(s.len(), |i: int| (s[i].0@, value_text(s[i].1, html)))
}

/// Sorted pairs with `k` put in its place, instead of a pair of that key where there is one.
pub open spec fn put_pair(ps: Seq<(Seq<char>, Seq<char>)>, k: Seq<char>, t: Seq<char>) -> Seq<
    (Seq<char>, Seq<char>),
>
    decreases ps.len(),
{
    if ps.len() == 0 {
        seq![(k, t)]
    } else if text::text_before(ps[0].0, k) {
        seq![ps[0]] + put_pair(ps.skip(1), k, t)
    } else if ps[0].0 == k {
        seq![(k, t)] + ps.skip(1)
    } else {
        seq![(k, t)] + ps
    }
}

proof fn lemma_put_pair(ps: Seq<(Seq<char>, Seq<char>)>, k: Seq<char>, t: Seq<char>, i: int)
    requires
        0 <= i <= ps.len(),
        forall|j: int| 0 <= j < i ==> text::text_before((#[trigger] ps[j]).0, k),
        i < ps.len() ==> !text::text_before(ps[i].0, k),
    ensures
        put_pair(ps, k, t) == if i < ps.len() && ps[i].0 == k {
            ps.update(i, (k, t))
        } else {
            ps.insert(i, (k, t))
        },
    decreases i,
{
    if i > 0 {
        assert(text::text_before(ps[0].0, k));
        let rest = ps.skip(1);
        assert forall|j: int| 0 <= j < i - 1 implies text::text_before(
            (#[trigger] rest[j]).0,
            k,
        ) by {
            assert(rest[j] == ps[j + 1]);
        }
        lemma_put_pair(rest, k, t, i - 1);
    }
    let want = if i < ps.len() && ps[i].0 == k {
        ps.update(i, (k, t))
    } else {
        ps.insert(i, (k, t))
    };
    assert(put_pair(ps, k, t) =~= want);
}

/// Putting a pair in keeps the keys ascending.
pub proof fn lemma_put_ascends(ps: Seq<(Seq<char>, Seq<char>)>, k: Seq<char>, t: Seq<char>)
    requires
        forall|i: int, j: int|
            0 <= i < j < ps.len() ==> #[trigger] text::text_before(ps[i].0, ps[j].0),
    ensures
        ({
            let out = put_pair(ps, k, t);
            &&& forall|i: int, j: int|
                0 <= i < j < out.len() ==> #[trigger] text::text_before(out[i].0, out[j].0)
            &&& forall|i: int|
                0 <= i < out.len() ==> (#[trigger] out[i]).0 == k || exists|j: int|
                    0 <= j < ps.len() && (#[trigger] ps[j]).0 == out[i].0
        }),
    decreases ps.len(),
{
    let out = put_pair(ps, k, t);
    if ps.len() > 0 {
        text::lemma_before_total(ps[0].0, k);
        let rest = ps.skip(1);
        assert forall|i: int, j: int| 0 <= i < j < rest.len() implies #[trigger] text::text_before(
            rest[i].0,
            rest[j].0,
        ) by {
            assert(text::text_before(ps[i + 1].0, ps[j + 1].0));
        }
        if text::text_before(ps[0].0, k) {
            lemma_put_ascends(rest, k, t);
            let tail = put_pair(rest, k, t);
            assert forall|i: int| 0 <= i < out.len() implies (#[trigger] out[i]).0 == k
                || exists|j: int| 0 <= j < ps.len() && (#[trigger] ps[j]).0 == out[i].0 by {
                if i == 0 {
                    assert(ps[0].0 == out[0].0);
                } else if out[i].0 != k {
                    assert(out[i] == tail[i - 1]);
                    let j = choose|j: int|
                        0 <= j < rest.len() && (#[trigger] rest[j]).0 == tail[i - 1].0;
                    assert(ps[j + 1].0 == out[i].0);
                }
            }
            assert forall|i: int, j: int| 0 <= i < j < out.len() implies #[trigger]
                text::text_before(out[i].0, out[j].0) by {
                assert(out[j] == tail[j - 1]);
                if i > 0 {
                    assert(out[i] == tail[i - 1]);
                    assert(text::text_before(tail[i - 1].0, tail[j - 1].0));
                } else if tail[j - 1].0 != k {
                    let m = choose|m: int|
                        0 <= m < rest.len() && (#[trigger] rest[m]).0 == tail[j - 1].0;
                    assert(text::text_before(ps[0].0, ps[m + 1].0));
                }
            }
        } else if ps[0].0 == k {
            assert(out =~= ps.update(0, (k, t)));
            assert forall|i: int, j: int| 0 <= i < j < out.len() implies #[trigger]
                text::text_before(out[i].0, out[j].0) by {
                assert(text::text_before(ps[i].0, ps[j].0));
            }
            assert forall|i: int| 0 <= i < out.len() implies (#[trigger] out[i]).0 == k
                || exists|j: int| 0 <= j < ps.len() && (#[trigger] ps[j]).0 == out[i].0 by {
                assert(ps[i].0 == out[i].0);
            }
        } else {
            assert forall|i: int, j: int| 0 <= i < j < out.len() implies #[trigger]
                text::text_before(out[i].0, out[j].0) by {
                assert(out[j] == ps[j - 1]);
                if i > 0 {
                    assert(out[i] == ps[i - 1]);
                    assert(text::text_before(ps[i - 1].0, ps[j - 1].0));
                } else if j > 1 {
                    assert(text::text_before(ps[0].0, ps[j - 1].0));
                    text::lemma_before_transitive(k, ps[0].0, ps[j - 1].0);
                }
            }
            assert forall|i: int| 0 <= i < out.len() implies (#[trigger] out[i]).0 == k
                || exists|j: int| 0 <= j < ps.len() && (#[trigger] ps[j]).0 == out[i].0 by {
                if i > 0 {
                    assert(ps[i - 1].0 == out[i].0);
                }
            }
        }
    }
}

/// An object is that of its members.
pub proof fn lemma_object(fields: Seq<(String, JsonValue)>, html: bool)
    ensures
        object_text(fields, html) == object_of(member_pairs(fields, html), html),
{
    lemma_members(fields, fields.len(), html);
}

proof fn lemma_members(fields: Seq<(String, JsonValue)>, n: nat, html: bool)
    requires
        n <= fields.len(),
    ensures
        members_text(fields, n, html) == pairs_text(member_pairs(fields, html), n, html),
    decreases n,
{
    if n > 0 {
        lemma_members(fields, (n - 1) as nat, html);
        let f = fields[n - 1];
        assert(member_pairs(fields, html)[n - 1] == (f.0@, value_text(f.1, html)));
        let head = members_text(fields, (n - 1) as nat, html) + comma(n);
        assert(head + member_text(f.0@, f.1, html) =~= head + string_text(f.0@, html) + seq![':']
            + value_text(f.1, html));
    }
}

impl JsonMap {
    #[verifier::type_invariant]
    spec fn ascending(&self) -> bool {
        keys_ascend(self.entries@)
    }

    /// The members in the order in which they are written.
    pub closed spec fn members(&self) -> Seq<(String, JsonValue)> {
        self.entries@
    }

    /// An object without members.
    pub fn new() -> (m: JsonMap)
        ensures
            m.members() == Seq::<(String, JsonValue)>::empty(),
    {
        JsonMap { entries: Vec::new() }
    }

    /// Sets the member `key`, in place of one of that key where there is one.
    pub fn insert(&mut self, key: String, value: JsonValue)
        ensures
            keys_ascend(final(self).members()),
            forall|k: Seq<char>, v: JsonValue|
                has_member(final(self).members(), k, v) <==> if k == key@ {
                    v == value
                } else {
                    has_member(old(self).members(), k, v)
                },
            forall|html: bool| #[trigger]
                member_pairs(final(self).members(), html) == put_pair(
                    member_pairs(old(self).members(), html),
                    key@,
                    value_text(value, html),
                ),
    {
        let mut m = JsonMap::new();
        std::mem::swap(self, &mut m);
        proof {
            use_type_invariant(&m);
        }
        let ghost before = m.entries@;
        let ghost entry = (key, value);
        let mut entries = m.entries;
        let mut i: usize = 0;
        while i < entries.len() && sorts_before(entries[i].0.as_str(), key.as_str())
            invariant
                i <= entries.len(),
                entries@ == before,
                forall|j: int| 0 <= j < i ==> text::text_before((#[trigger] before[j]).0@, key@),
            decreases entries.len() - i,
        {
            i += 1;
        }
        proof {
            assert forall|j: int| 0 <= j < i implies (#[trigger] before[j]).0@ != key@ by {
                text::lemma_before_total(before[j].0@, key@);
            }
            if i < before.len() {
                text::lemma_before_total(before[i as int].0@, key@);
            }
            assert forall|html: bool| #![trigger value_text(entry.1, html)]
                put_pair(member_pairs(before, html), key@, value_text(value, html)) == (if i
                    < before.len() && before[i as int].0@ == key@ {
                    member_pairs(before.update(i as int, entry), html)
                } else {
                    member_pairs(before.insert(i as int, entry), html)
                }) by {
                let ps = member_pairs(before, html);
                assert forall|j: int| 0 <= j < i implies text::text_before(
                    (#[trigger] ps[j]).0,
                    key@,
                ) by {
                    assert(ps[j].0 == before[j].0@);
                }
                let t = value_text(value, html);
                lemma_put_pair(ps, key@, t, i as int);
                assert(member_pairs(before.insert(i as int, entry), html) =~= ps.insert(
                    i as int,
                    (key@, t),
                ));
                if i < before.len() {
                    assert(member_pairs(before.update(i as int, entry), html) =~= ps.update(
                        i as int,
                        (key@, t),
                    ));
                }
            }
        }
        if i < entries.len() && text::str_eq(entries[i].0.as_str(), key.as_str()) {
            proof {
                assert forall|j: int| i < j < before.len() implies (#[trigger] before[j]).0@
                    != key@ by {
                    assert(text::text_before(before[i as int].0@, before[j].0@));
                    text::lemma_before_total(before[i as int].0@, before[j].0@);
                }
                lemma_replaced(before, i as int, (key, value));
            }
            entries.set(i, (key, value));
            assert(entries@ =~= before.update(i as int, entry));
        } else {
            proof {
                assert forall|j: int| i <= j < before.len() implies text::text_before(
                    key@,
                    (#[trigger] before[j]).0@,
                ) by {
                    if j > i {
                        assert(text::text_before(before[i as int].0@, before[j].0@));
                        text::lemma_before_transitive(key@, before[i as int].0@, before[j].0@);
                    }
                }
                lemma_inserted(before, i as int, (key, value));
            }
            entries.insert(i, (key, value));
            assert(entries@ =~= before.insert(i as int, entry));
        }
        assert forall|html: bool| #[trigger]
            member_pairs(entries@, html) == put_pair(
                member_pairs(before, html),
                entry.0@,
                value_text(entry.1, html),
            ) by {
            assert(value_text(entry.1, html) == value_text(value, html));
        }
        *self = JsonMap { entries };
    }
}

proof fn lemma_replaced(s: Seq<(String, JsonValue)>, i: int, e: (String, JsonValue))
    requires
        keys_ascend(s),
        0 <= i < s.len(),
        s[i].0@ == e.0@,
        forall|j: int| 0 <= j < s.len() && j != i ==> (#[trigger] s[j]).0@ != e.0@,
    ensures
        keys_ascend(s.update(i, e)),
        forall|k: Seq<char>, v: JsonValue|
            has_member(s.update(i, e), k, v) <==> if k == e.0@ {
                v == e.1
            } else {
                has_member(s, k, v)
            },
{
    let t = s.update(i, e);
    assert forall|a: int, b: int| 0 <= a < b < t.len() implies #[trigger] text::text_before(
        t[a].0@,
        t[b].0@,
    ) by {
        assert(text::text_before(s[a].0@, s[b].0@));
    }
    assert forall|k: Seq<char>, v: JsonValue|
        has_member(t, k, v) <==> if k == e.0@ {
            v == e.1
        } else {
            has_member(s, k, v)
        } by {
        assert(t[i] == e);
        if has_member(t, k, v) {
            let j = choose|j: int| 0 <= j < t.len() && (#[trigger] t[j]).0@ == k && t[j].1 == v;
            if j != i {
                assert(t[j] == s[j]);
            }
        }
        if has_member(s, k, v) && k != e.0@ {
            let j = choose|j: int| 0 <= j < s.len() && (#[trigger] s[j]).0@ == k && s[j].1 == v;
            assert(t[j] == s[j]);
        }
    }
}

proof fn lemma_inserted(s: Seq<(String, JsonValue)>, i: int, e: (String, JsonValue))
    requires
        keys_ascend(s),
        0 <= i <= s.len(),
        forall|j: int| 0 <= j < i ==> text::text_before((#[trigger] s[j]).0@, e.0@),
        forall|j: int| i <= j < s.len() ==> text::text_before(e.0@, (#[trigger] s[j]).0@),
    ensures
        keys_ascend(s.insert(i, e)),
        forall|k: Seq<char>, v: JsonValue|
            has_member(s.insert(i, e), k, v) <==> if k == e.0@ {
                v == e.1
            } else {
                has_member(s, k, v)
            },
{
    let t = s.insert(i, e);
    assert forall|a: int, b: int| 0 <= a < b < t.len() implies #[trigger] text::text_before(
        t[a].0@,
        t[b].0@,
    ) by {
        if a < i && b < i {
            assert(text::text_before(s[a].0@, s[b].0@));
        } else if a < i && b == i {
            assert(text::text_before(s[a].0@, e.0@));
        } else if a < i {
            assert(text::text_before(s[a].0@, s[b - 1].0@));
        } else if a == i {
            assert(text::text_before(e.0@, s[b - 1].0@));
        } else {
            assert(text::text_before(s[a - 1].0@, s[b - 1].0@));
        }
    }
    assert forall|k: Seq<char>, v: JsonValue|
        has_member(t, k, v) <==> if k == e.0@ {
            v == e.1
        } else {
            has_member(s, k, v)
        } by {
        assert(t[i] == e);
        if has_member(t, k, v) {
            let j = choose|j: int| 0 <= j < t.len() && (#[trigger] t[j]).0@ == k && t[j].1 == v;
            if j < i {
                assert(t[j] == s[j]);
                text::lemma_before_total(s[j].0@, e.0@);
            } else if j > i {
                assert(t[j] == s[j - 1]);
                text::lemma_before_total(e.0@, s[j - 1].0@);
            }
        }
        if has_member(s, k, v) && k != e.0@ {
            let j = choose|j: int| 0 <= j < s.len() && (#[trigger] s[j]).0@ == k && s[j].1 == v;
            if j < i {
                assert(t[j] == s[j]);
            } else {
                assert(t[j + 1] == s[j]);
            }
        }
    }
}

/// The members of an object are smaller than the object.
pub proof fn lemma_members_smaller(v: JsonValue)
    ensures
        v matches JsonValue::Dict(m) ==> decreases_to!(v => m.members()),
{
    if let JsonValue::Dict(m) = v {
        assert(decreases_to!(v => m.entries));
        assert(decreases_to!(m.entries => m.entries@));
    }
}

} // verus!
