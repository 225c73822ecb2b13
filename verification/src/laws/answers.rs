//! Answers of the control interface.

use vstd::prelude::*;
use vstd::string::*;
use vstd::utf8::*;

use super::replies;
use crate::control::endpoints;
use crate::control::endpoints::{handle_auto_hangup, handle_auto_unlock, handle_automation_get,
    respond_unlock_outcome, Push};
use crate::control::fields;
use crate::control::syntax;
use crate::control::AutomationState;
use crate::httpx::json;
use crate::httpx::{Request, ResponseWriter};
use crate::text;
use crate::unlock::{UnlockOutcome, WireKind};

verus! {

// ---------------------------------------------------------------------------
// Outcomes of unlocks
// ---------------------------------------------------------------------------

/// The event is reported with a result and, as far as they are known, the two addresses.
pub open spec fn reports(
    p: Option<Push>,
    event: Seq<char>,
    code: Seq<char>,
    from: Seq<char>,
    to: Seq<char>,
) -> bool {
    p matches Some(q) && {
        let n = 1 + (if from.len() > 0 { 1int } else { 0 }) + (if to.len() > 0 { 1int } else { 0 });
        &&& q.event@ == event
        &&& q.fields@.len() == n
        &&& q.fields@[0].0@ == "result"@ && q.fields@[0].1@ == code
        &&& from.len() > 0 ==> q.fields@[1].0@ == "from"@ && q.fields@[1].1@ == from
        &&& to.len() > 0 ==> q.fields@[n - 1].0@ == "to"@ && q.fields@[n - 1].1@ == to
    }
}

pub proof fn lemma_reported(
    p: Option<Push>,
    event: Seq<char>,
    code: i32,
    from: Seq<char>,
    to: Seq<char>,
)
    requires
        endpoints::push_view(p) == Some(endpoints::business_push(event, code, from, to)),
    ensures
        reports(p, event, text::dec_int(code as int), from, to),
{
    let q = p->0;
    let v = endpoints::pair_views(q.fields@);
    assert(q@.fields == v);
    assert(v.len() == q.fields@.len());
    assert(v[0] == (q.fields@[0].0@, q.fields@[0].1@));
    if from.len() > 0 {
        assert(v[1] == (q.fields@[1].0@, q.fields@[1].1@));
    }
    if to.len() > 0 {
        let k = v.len() - 1;
        assert(v[k] == (q.fields@[k].0@, q.fields@[k].1@));
    }
}

/// What is answered and reported for each outcome of an unlock. Where the door opened nothing is
/// reported. Where the ringing ended meanwhile, or the station said nothing, nobody rings: -103.
/// Where the station did not answer in time the answer is 503 with -5, and where it failed
/// otherwise 503 with -1. A refusal is -1.
#[verifier::rlimit(40)]
pub proof fn law_outcomes_are_answered<W: ResponseWriter>(
    w: &mut W,
    event: &str,
    o: UnlockOutcome,
    from: &str,
    to: &str,
    p: Option<Push>,
)
    requires
        replies::unsent(old(w).reply()),
        call_ensures(respond_unlock_outcome::<W>, (w, event, &o, from, to), p),
    ensures
        ({
            let r = final(w).reply();
            let failed = o.result != 0 && !(o.result == -1 && o.wire_kind is None);
            &&& o.result == 0 ==> replies::says(r, 200, "{\"result\":0}"@) && p is None
            &&& o.result == -1 && o.wire_kind is None ==> replies::says(r, 200, "{\"result\":-1}"@)
                && reports(p, event@, "-1"@, from@, to@)
            &&& failed && o.terminated_by_bye ==> replies::says(r, 200, "{\"result\":-103}"@)
                && reports(p, event@, "-103"@, from@, to@)
            &&& failed && !o.terminated_by_bye && o.wire_kind == Some(WireKind::SilentFin)
                ==> replies::says(r, 200, "{\"result\":-103}"@) && reports(
                p,
                event@,
                "-103"@,
                from@,
                to@,
            )
            &&& failed && !o.terminated_by_bye && o.wire_kind == Some(WireKind::Timeout)
                ==> replies::says(r, 503, "{\"result\":-5}"@) && reports(
                p,
                event@,
                "-5"@,
                from@,
                to@,
            )
            &&& failed && !o.terminated_by_bye && (o.wire_kind == Some(WireKind::Retryable)
                || o.wire_kind == Some(WireKind::Other)) ==> replies::says(
                r,
                503,
                "{\"result\":-1}"@,
            ) && reports(p, event@, "-1"@, from@, to@)
        }),
{
    let before = old(w).reply();
    replies::lemma_codes();
    replies::lemma_result_texts();
    replies::lemma_result_reply(before, 200, 0);
    replies::lemma_result_reply(before, 200, -1);
    replies::lemma_result_reply(before, 200, -103);
    replies::lemma_result_reply(before, 503, -5);
    replies::lemma_result_reply(before, 503, -1);
    if p is Some {
        lemma_reported(p, event@, endpoints::outcome_answer(o).1, from@, to@);
    }
}

// ---------------------------------------------------------------------------
// Flags
// ---------------------------------------------------------------------------

/// White space alone.
pub open spec fn blank(s: Seq<u8>) -> bool {
    forall|i: int| 0 <= i < s.len() ==> #[trigger] s[i] == 32 || s[i] == 9 || s[i] == 10 || s[i]
        == 13
}

/// The bytes of a flag.
pub open spec fn flag_bytes(on: bool) -> Seq<u8> {
    if on {
        seq![0x74u8, 0x72u8, 0x75u8, 0x65u8]
    } else {
        seq![0x66u8, 0x61u8, 0x6cu8, 0x73u8, 0x65u8]
    }
}

/// A body that asks for a flag: `{"on":true}` or `{"on":false}`, with any white space.
pub open spec fn asks_for(body: Seq<u8>, on: bool, a: Seq<u8>, b: Seq<u8>, c: Seq<u8>, d: Seq<u8>, e: Seq<u8>, f: Seq<u8>) -> bool {
    &&& blank(a) && blank(b) && blank(c) && blank(d) && blank(e) && blank(f)
    &&& body.len() <= 1048576
    &&& body == a + flag_object(on, b, c, d, e) + f
}

pub open spec fn flag_object(on: bool, b: Seq<u8>, c: Seq<u8>, d: Seq<u8>, e: Seq<u8>) -> Seq<u8> {
    seq![0x7bu8] + b + seq![0x22u8, 0x6fu8, 0x6eu8, 0x22u8] + c + seq![0x3au8] + d + flag_bytes(on)
        + e + seq![0x7du8]
}

proof fn lemma_blank_run(s: Seq<u8>, pos: int, n: nat)
    requires
        0 <= pos,
        pos + n <= s.len(),
        forall|i: int| pos <= i < pos + n ==> syntax::is_ws(#[trigger] s[i]),
        pos + n < s.len() ==> !syntax::is_ws(s[pos + n]),
    ensures
        syntax::ws_end(s, pos) == pos + n,
    decreases n,
{
    if n > 0 {
        assert(syntax::is_ws(s[pos]));
        lemma_blank_run(s, pos + 1, (n - 1) as nat);
    }
}

proof fn lemma_trimmed(a: Seq<u8>, s: Seq<u8>, f: Seq<u8>)
    requires
        blank(a),
        blank(f),
        s.len() > 0,
        !syntax::is_ws(s[0]),
        !syntax::is_ws(s.last()),
    ensures
        syntax::trimmed(a + s + f) == s,
    decreases a.len() + f.len(),
{
    let t = a + s + f;
    if a.len() > 0 {
        assert(t[0] == a[0]);
        let r = a.drop_first();
        assert(blank(r)) by {
            assert forall|i: int| 0 <= i < r.len() implies #[trigger] r[i] == 32 || r[i] == 9
                || r[i] == 10 || r[i] == 13 by {
                assert(r[i] == a[i + 1]);
            }
        }
        assert(t.drop_first() =~= r + s + f);
        lemma_trimmed(r, s, f);
    } else if f.len() > 0 {
        assert(t[0] == s[0]);
        assert(t.last() == f.last());
        let r = f.drop_last();
        assert(f[f.len() - 1] == f.last());
        assert(blank(r)) by {
            assert forall|i: int| 0 <= i < r.len() implies #[trigger] r[i] == 32 || r[i] == 9
                || r[i] == 10 || r[i] == 13 by {
                assert(r[i] == f[i]);
            }
        }
        assert(t.drop_last() =~= a + s + r);
        lemma_trimmed(a, s, r);
    } else {
        assert(t =~= s);
    }
}

proof fn lemma_name_on(s: Seq<u8>, q: int)
    requires
        0 <= q,
        q + 4 <= s.len(),
        s[q] == 0x22,
        s[q + 1] == 0x6f,
        s[q + 2] == 0x6e,
        s[q + 3] == 0x22,
    ensures
        syntax::string_end(s, q + 1) == Ok::<int, Seq<char>>(q + 4),
        fields::string_at(s, q) == Ok::<(Seq<char>, int), Seq<char>>(("on"@, q + 4)),
{
    reveal_with_fuel(syntax::string_end, 4);
    reveal_with_fuel(fields::closing_quote, 4);
    reveal_strlit("on");
    is_ascii_chars_encode_utf8("on"@);
    let e = encode_utf8("on"@);
    assert("on"@[0] as u8 == e[0] && "on"@[1] as u8 == e[1]);
    assert(s.subrange(q + 1, q + 3) =~= e);
    encode_utf8_valid_utf8("on"@);
    encode_utf8_decode_utf8("on"@);
}

/// Where the parts of such an object stand.
spec fn flag_stands(
    s: Seq<u8>,
    on: bool,
    q: int,
    colon: int,
    v: int,
    close: int,
) -> bool {
    let ve = v + flag_bytes(on).len();
    &&& 0 < q && q + 4 <= colon && colon < v && ve <= close && close + 1 == s.len()
    &&& s[0] == 0x7b
    &&& s[q] == 0x22 && s[q + 1] == 0x6f && s[q + 2] == 0x6e && s[q + 3] == 0x22
    &&& s[colon] == 0x3a
    &&& s.subrange(v, ve) == flag_bytes(on)
    &&& s[v] == flag_bytes(on)[0]
    &&& s[close] == 0x7d
    &&& syntax::ws_end(s, 0) == 0
    &&& syntax::ws_end(s, 1) == q
    &&& syntax::ws_end(s, q) == q
    &&& syntax::ws_end(s, q + 4) == colon
    &&& syntax::ws_end(s, colon + 1) == v
    &&& syntax::ws_end(s, v) == v
    &&& syntax::ws_end(s, ve) == close
    &&& syntax::ws_end(s, close + 1) == close + 1
}

#[verifier::rlimit(40)]
proof fn lemma_flag_stands(on: bool, b: Seq<u8>, c: Seq<u8>, d: Seq<u8>, e: Seq<u8>)
    requires
        blank(b) && blank(c) && blank(d) && blank(e),
    ensures
        ({
            let q = 1 + b.len() as int;
            let colon = q + 4 + c.len();
            let v = colon + 1 + d.len();
            flag_stands(
                flag_object(on, b, c, d, e),
                on,
                q,
                colon,
                v,
                v + flag_bytes(on).len() + e.len(),
            )
        }),
{
    let s = flag_object(on, b, c, d, e);
    let q = 1 + b.len() as int;
    let k = q + 4;
    let colon = k + c.len();
    let v = colon + 1 + d.len();
    let ve = v + flag_bytes(on).len();
    let close = ve + e.len();
    assert(s.len() == close + 1);
    assert(s[0] == 0x7b);
    assert forall|i: int| 1 <= i < q implies syntax::is_ws(#[trigger] s[i]) by {
        assert(s[i] == b[i - 1]);
    }
    assert(s[q] == 0x22 && s[q + 1] == 0x6f && s[q + 2] == 0x6e && s[q + 3] == 0x22);
    assert forall|i: int| k <= i < colon implies syntax::is_ws(#[trigger] s[i]) by {
        assert(s[i] == c[i - k]);
    }
    assert(s[colon] == 0x3a);
    assert forall|i: int| colon + 1 <= i < v implies syntax::is_ws(#[trigger] s[i]) by {
        assert(s[i] == d[i - colon - 1]);
    }
    assert(s.subrange(v, ve) =~= flag_bytes(on));
    assert(s[v] == flag_bytes(on)[0]);
    assert forall|i: int| ve <= i < close implies syntax::is_ws(#[trigger] s[i]) by {
        assert(s[i] == e[i - ve]);
    }
    assert(s[close] == 0x7d);
    lemma_blank_run(s, 0, 0);
    lemma_blank_run(s, 1, b.len());
    lemma_blank_run(s, q, 0);
    lemma_blank_run(s, k, c.len());
    lemma_blank_run(s, colon + 1, d.len());
    lemma_blank_run(s, v, 0);
    lemma_blank_run(s, ve, e.len());
    lemma_blank_run(s, close + 1, 0);
}

#[verifier::rlimit(40)]
proof fn lemma_flag_accepted(s: Seq<u8>, on: bool, q: int, colon: int, v: int, close: int)
    requires
        flag_stands(s, on, q, colon, v, close),
    ensures
        syntax::value_fault(s) is None,
{
    syntax::lemma_literals();
    lemma_name_on(s, q);
    let ve = v + flag_bytes(on).len();
    assert(syntax::value_end(s, colon + 1) == Ok::<int, Seq<char>>(ve));
    assert(syntax::members_end(s, q) == Ok::<int, Seq<char>>(close + 1));
    assert(syntax::object_end(s, 0) == Ok::<int, Seq<char>>(close + 1));
    assert(syntax::value_end(s, 0) == Ok::<int, Seq<char>>(close + 1));
}

#[verifier::rlimit(40)]
proof fn lemma_flag_read(s: Seq<u8>, on: bool, q: int, colon: int, v: int, close: int)
    requires
        flag_stands(s, on, q, colon, v, close),
    ensures
        syntax::trimmed(s) == s,
        fields::flag_field(s, "on"@) == Ok::<bool, Seq<char>>(on),
{
    syntax::lemma_literals();
    lemma_name_on(s, q);
    let ve = v + flag_bytes(on).len();
    assert(fields::flag_at(s, v) == Ok::<(bool, int), Seq<char>>((on, ve))) by {
        if !on && v + 4 <= s.len() {
            assert(s.subrange(v, v + 4)[0] == s[v]);
            assert("true".spec_bytes()[0] == 0x74);
        }
    }
    assert(text::eq_no_case("on"@, "on"@));
    assert(fields::last_field(s, q, "on"@, true, None) == Ok::<int, Seq<char>>(v));
}

pub proof fn lemma_asked(body: Seq<u8>, on: bool, a: Seq<u8>, b: Seq<u8>, c: Seq<u8>, d: Seq<u8>, e: Seq<u8>, f: Seq<u8>)
    requires
        asks_for(body, on, a, b, c, d, e, f),
    ensures
        endpoints::requested_flag(body) == Ok::<bool, Seq<char>>(on),
{
    let s = flag_object(on, b, c, d, e);
    syntax::lemma_literals();
    assert(s[0] == 0x7b && s.last() == 0x7d);
    lemma_trimmed(a, s, f);
    lemma_flag_stands(on, b, c, d, e);
    let q = 1 + b.len() as int;
    let colon = q + 4 + c.len();
    let v = colon + 1 + d.len();
    let close = v + flag_bytes(on).len() + e.len();
    lemma_flag_accepted(s, on, q, colon, v, close);
    lemma_flag_read(s, on, q, colon, v, close);
    assert("null".spec_bytes()[0] == 110);
}

/// A request to switch the flag for hanging up switches that flag and leaves the other as it was;
/// the answer repeats it, and the flags are to be saved.
#[verifier::rlimit(40)]
pub proof fn law_hangup_flag_is_switched<W: ResponseWriter>(
    flags: &mut Option<AutomationState>,
    w: &mut W,
    r: Request,
    save: bool,
    on: bool,
    a: Seq<u8>,
    b: Seq<u8>,
    c: Seq<u8>,
    d: Seq<u8>,
    e: Seq<u8>,
    f: Seq<u8>,
)
    requires
        replies::unsent(old(w).reply()),
        asks_for(r.body@, on, a, b, c, d, e, f),
        call_ensures(handle_auto_hangup::<W>, (flags, w, &r), save),
    ensures
        save,
        *final(flags) is Some <==> *old(flags) is Some,
        *final(flags) matches Some(n) ==> n.auto_hangup == on && n.auto_unlock == (
        *old(flags))->0.auto_unlock,
        replies::says(
            final(w).reply(),
            200,
            "{\"result\":0,\"auto_hangup\":"@ + replies::flag(on) + "}"@,
        ),
{
    lemma_asked(r.body@, on, a, b, c, d, e, f);
    lemma_flag_texts(on);
    let t = json::object_of(
        seq![("result"@, text::dec_int(0)), ("auto_hangup"@, crate::info::flag_text(on))],
        true,
    );
    reveal_strlit("}");
    replies::lemma_json(old(w).reply(), 200, t);
}

/// A request to switch the flag for unlocking switches that flag and leaves the other as it was;
/// the answer repeats it, and the flags are to be saved.
#[verifier::rlimit(40)]
pub proof fn law_unlock_flag_is_switched<W: ResponseWriter>(
    flags: &mut Option<AutomationState>,
    w: &mut W,
    r: Request,
    save: bool,
    on: bool,
    a: Seq<u8>,
    b: Seq<u8>,
    c: Seq<u8>,
    d: Seq<u8>,
    e: Seq<u8>,
    f: Seq<u8>,
)
    requires
        replies::unsent(old(w).reply()),
        asks_for(r.body@, on, a, b, c, d, e, f),
        call_ensures(handle_auto_unlock::<W>, (flags, w, &r), save),
    ensures
        save,
        *final(flags) is Some <==> *old(flags) is Some,
        *final(flags) matches Some(n) ==> n.auto_unlock == on && n.auto_hangup == (
        *old(flags))->0.auto_hangup,
        replies::says(
            final(w).reply(),
            200,
            "{\"result\":0,\"auto_unlock\":"@ + replies::flag(on) + "}"@,
        ),
{
    lemma_asked(r.body@, on, a, b, c, d, e, f);
    lemma_flag_texts(on);
    let t = json::object_of(
        seq![("result"@, text::dec_int(0)), ("auto_unlock"@, crate::info::flag_text(on))],
        true,
    );
    reveal_strlit("}");
    replies::lemma_json(old(w).reply(), 200, t);
}

#[verifier::rlimit(40)]
pub proof fn lemma_flag_texts(on: bool)
    ensures
        json::object_of(
            seq![("result"@, text::dec_int(0)), ("auto_hangup"@, crate::info::flag_text(on))],
            true,
        ) == "{\"result\":0,\"auto_hangup\":"@ + replies::flag(on) + "}"@,
        json::object_of(
            seq![("result"@, text::dec_int(0)), ("auto_unlock"@, crate::info::flag_text(on))],
            true,
        ) == "{\"result\":0,\"auto_unlock\":"@ + replies::flag(on) + "}"@,
{
    replies::lemma_codes();
    reveal_strlit("0");
    reveal_strlit("result");
    reveal_strlit("auto_hangup");
    reveal_strlit("auto_unlock");
    reveal_strlit("}");
    reveal_strlit("{\"result\":0,\"auto_hangup\":");
    reveal_strlit("{\"result\":0,\"auto_unlock\":");
    let v = crate::info::flag_text(on);
    replies::lemma_object_two("result"@, "0"@, "auto_hangup"@, v);
    replies::lemma_object_two("result"@, "0"@, "auto_unlock"@, v);
    assert(seq!['{', '"'] + "result"@ + seq!['"', ':'] + "0"@ + seq![',', '"'] + "auto_hangup"@
        + seq!['"', ':'] =~= "{\"result\":0,\"auto_hangup\":"@);
    assert(seq!['{', '"'] + "result"@ + seq!['"', ':'] + "0"@ + seq![',', '"'] + "auto_unlock"@
        + seq!['"', ':'] =~= "{\"result\":0,\"auto_unlock\":"@);
    assert(seq!['}'] =~= "}"@);
}

/// The text that shows both flags.
pub open spec fn both_flags(unlock: bool, hangup: bool) -> Seq<char> {
    "{\"result\":0,\"auto_unlock\":"@ + replies::flag(unlock) + ",\"auto_hangup\":"@
        + replies::flag(hangup) + "}"@
}

#[verifier::rlimit(40)]
pub proof fn lemma_both_flags(u: bool, h: bool)
    ensures
        json::object_of(
            seq![
                ("result"@, text::dec_int(0)),
                ("auto_unlock"@, crate::info::flag_text(u)),
                ("auto_hangup"@, crate::info::flag_text(h)),
            ],
            true,
        ) == both_flags(u, h),
        both_flags(u, h).len() > 0,
{
    replies::lemma_codes();
    reveal_strlit("0");
    reveal_strlit("result");
    reveal_strlit("auto_hangup");
    reveal_strlit("auto_unlock");
    reveal_strlit("}");
    reveal_strlit(",\"auto_hangup\":");
    reveal_strlit("{\"result\":0,\"auto_unlock\":");
    let v = crate::info::flag_text(u);
    let w = crate::info::flag_text(h);
    replies::lemma_object_three("result"@, "0"@, "auto_unlock"@, v, "auto_hangup"@, w);
    assert(seq!['{', '"'] + "result"@ + seq!['"', ':'] + "0"@ + seq![',', '"'] + "auto_unlock"@
        + seq!['"', ':'] =~= "{\"result\":0,\"auto_unlock\":"@);
    assert(seq!['}'] =~= "}"@);
    let head = "{\"result\":0,\"auto_unlock\":"@ + v;
    assert(head + seq![',', '"'] + "auto_hangup"@ + seq!['"', ':'] =~= head
        + ",\"auto_hangup\":"@);
}

/// Both flags are shown under their names; where there are none both are off.
pub proof fn law_flags_are_shown<W: ResponseWriter>(flags: Option<AutomationState>, w: &mut W)
    requires
        replies::unsent(old(w).reply()),
        call_ensures(handle_automation_get::<W>, (&flags, w), ()),
    ensures
        flags matches Some(f) ==> replies::says(
            final(w).reply(),
            200,
            both_flags(f.auto_unlock, f.auto_hangup),
        ),
        flags is None ==> replies::says(final(w).reply(), 200, both_flags(false, false)),
{
    let (u, h) = match flags {
        Some(f) => (f.auto_unlock, f.auto_hangup),
        None => (false, false),
    };
    lemma_both_flags(u, h);
    replies::lemma_json(old(w).reply(), 200, both_flags(u, h));
}

} // verus!
