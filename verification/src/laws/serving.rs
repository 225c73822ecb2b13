//! Requests to the control interface and what they lead to.

use vstd::prelude::*;
use vstd::string::*;
use vstd::utf8::*;

use super::answers;
use super::forms;
use super::replies;
use crate::control;
use crate::control::endpoints;
use crate::control::fields;
use crate::control::is_json_media_type;
use crate::control::routes;
use crate::control::routes::{Action, Server};
use crate::control::syntax;
use crate::control::written;
use crate::httpx::header;
use crate::httpx::json;
use crate::httpx::mux;
use crate::httpx::{Reply, Request, ResponseWriter};
use crate::text;

verus! {

// ---------------------------------------------------------------------------
// Guards
// ---------------------------------------------------------------------------

/// The request is a `POST` with a JSON body.
pub open spec fn posts_json(r: Request) -> bool {
    &&& r.method@ == "POST"@
    &&& r.header@.dom().contains("Content-Type"@)
    &&& r.header@["Content-Type"@] == seq!["application/json"@]
}

proof fn lemma_json_type()
    ensures
        control::is_json_type("application/json"@),
{
    reveal_strlit("application/json");
    let t = "application/json"@;
    assert forall|j: int| 0 <= j < t.len() implies t[j] != ';' by {}
    text::lemma_find_none(t, ';');
    text::lemma_trim_tight(t);
}

pub proof fn lemma_posts_json(r: Request, before: Reply)
    requires
        posts_json(r),
    ensures
        control::control_gate(r@, before) is None,
{
    lemma_json_type();
    header::lemma_names();
    assert(header::field(r@.header, "Content-Type"@) == Some("application/json"@));
}

/// `application/json` counts in any letter case and with any parameters behind it; what stands
/// before the parameters is all that counts.
pub proof fn law_json_media_type(ct: &str, r: bool, media: Seq<char>, rest: Seq<char>)
    requires
        call_ensures(is_json_media_type, (ct,), r),
        media.len() > 0,
        !text::is_space(media[0]) && !text::is_space(media.last()),
        forall|i: int| 0 <= i < media.len() ==> media[i] != ';',
        ct@ == media || ct@ == media + seq![';'] + rest,
    ensures
        r <==> text::eq_no_case(media, "application/json"@),
{
    text::lemma_trim_tight(media);
    if ct@ == media {
        text::lemma_find_none(media, ';');
    } else {
        text::lemma_find_at(ct@, ';', media.len() as int);
        assert(ct@.take(media.len() as int) =~= media);
    }
    if text::find(ct@, ';') is None {
        assert(ct@ == media);
    }
}

/// Nothing of the server changed.
pub open spec fn untouched(a: Server, b: Server) -> bool {
    a@ == b@
}

/// A path that is none of the endpoints is answered with 404.
#[verifier::rlimit(40)]
pub proof fn law_unknown_path<W: ResponseWriter>(s: &mut Server, w: &mut W, r: Request, a: Action)
    requires
        replies::unsent(old(w).reply()),
        call_ensures(Server::serve_http::<W>, (s, w, &r), a),
        ({
            let p = r.url.path@;
            p != "/auto_unlock"@ && p != "/auto_hangup"@ && p != "/automation"@ && p != "/info"@
                && p != "/playback"@ && p != "/unlock"@ && !(p.len() >= 7 && p.take(7)
                == "/video/"@)
        }),
    ensures
        a is Done,
        untouched(*final(s), *old(s)),
        replies::carries(final(w).reply(), 404, encode_utf8("Not Found"@)),
        replies::has_field(final(w).reply(), "Content-Length"@, "9"@),
{
    lemma_no_route(r.url.path@);
    lemma_not_found(old(w).reply());
    assert(a@ is Done ==> a is Done);
}

proof fn lemma_no_route(p: Seq<char>)
    requires
        p != "/auto_unlock"@ && p != "/auto_hangup"@ && p != "/automation"@ && p != "/info"@ && p
            != "/playback"@ && p != "/unlock"@ && !(p.len() >= 7 && p.take(7) == "/video/"@),
    ensures
        routes::route_of(p) is None,
{
    reveal_strlit("/video/");
    reveal_strlit("/video/start");
    reveal_strlit("/video/stop");
    assert("/video/start"@.take(7) =~= "/video/"@);
    assert("/video/stop"@.take(7) =~= "/video/"@);
}

proof fn lemma_not_found(before: Reply)
    requires
        replies::unsent(before),
    ensures
        replies::carries(mux::not_found(before), 404, encode_utf8("Not Found"@)),
        replies::has_field(mux::not_found(before), "Content-Length"@, "9"@),
{
    header::lemma_names();
    reveal_strlit("Not Found");
    let b = "Not Found".spec_bytes();
    is_ascii_chars_encode_utf8("Not Found"@);
    assert(b == encode_utf8("Not Found"@));
    let set = before.with_field("Content-Type"@, "text/plain; charset=utf-8"@).with_field(
        "Content-Length"@,
        "9"@,
    );
    assert(header::field(set.with_field("Connection"@, "close"@).header, "Content-Length"@)
        is Some);
    assert(mux::not_found(before).pieces =~= seq![b]);
}

/// A request by another method is answered with 405 and the method that is allowed: `GET` to look
/// at something, `POST` to change it. Nothing comes of it.
#[verifier::rlimit(40)]
pub proof fn law_wrong_method<W: ResponseWriter>(
    s: &mut Server,
    w: &mut W,
    r: Request,
    a: Action,
)
    requires
        replies::unsent(old(w).reply()),
        call_ensures(Server::serve_http::<W>, (s, w, &r), a),
    ensures
        ({
            let p = r.url.path@;
            let looks = p == "/automation"@ || p == "/info"@ || p == "/playback"@;
            let changes = p == "/auto_unlock"@ || p == "/auto_hangup"@ || p == "/unlock"@ || p
                == "/video/start"@ || p == "/video/stop"@;
            let y = final(w).reply();
            &&& looks && r.method@ != "GET"@ ==> a is Done && untouched(*final(s), *old(s))
                && replies::has_field(y, "Allow"@, "GET"@) && replies::complains(
                y,
                405,
                "method "@ + r.method@ + " not allowed; use GET"@,
            )
            &&& changes && r.method@ != "POST"@ ==> a is Done && untouched(*final(s), *old(s))
                && replies::has_field(y, "Allow"@, "POST"@) && replies::complains(
                y,
                405,
                "method "@ + r.method@ + " not allowed; use POST"@,
            )
        }),
{
    lemma_paths_differ();
    let before = old(w).reply();
    lemma_refused(before, r.method@, "GET"@);
    lemma_refused(before, r.method@, "POST"@);
    lemma_refusal_texts(r.method@);
    assert(a@ is Done ==> a is Done);
}

pub proof fn lemma_refusal_texts(method: Seq<char>)
    ensures
        "method "@ + method + " not allowed; use "@ + "GET"@ == "method "@ + method
            + " not allowed; use GET"@,
        "method "@ + method + " not allowed; use "@ + "POST"@ == "method "@ + method
            + " not allowed; use POST"@,
{
    let h = "method "@ + method;
    assert(" not allowed; use "@ + "GET"@ =~= " not allowed; use GET"@) by {
        reveal_strlit(" not allowed; use ");
        reveal_strlit(" not allowed; use GET");
        reveal_strlit("GET");
    }
    assert(" not allowed; use "@ + "POST"@ =~= " not allowed; use POST"@) by {
        reveal_strlit(" not allowed; use ");
        reveal_strlit(" not allowed; use POST");
        reveal_strlit("POST");
    }
    assert(h + " not allowed; use "@ + "GET"@ =~= h + (" not allowed; use "@ + "GET"@));
    assert(h + " not allowed; use "@ + "POST"@ =~= h + (" not allowed; use "@ + "POST"@));
}

pub proof fn lemma_refused(before: Reply, method: Seq<char>, allowed: Seq<char>)
    requires
        replies::unsent(before),
    ensures
        ({
            let y = control::method_refused(before, method, allowed);
            &&& replies::has_field(y, "Allow"@, allowed)
            &&& replies::complains(
                y,
                405,
                "method "@ + method + " not allowed; use "@ + allowed,
            )
        }),
{
    reveal_strlit("Allow");
    reveal_strlit("Content-Type");
    reveal_strlit("Content-Length");
    reveal_strlit("Connection");
    header::lemma_canonical_ascii("Allow"@);
    assert(header::ascii_canonical("Allow"@) =~= "Allow"@);
    let b = before.with_field("Allow"@, allowed);
    let m = "method "@ + method + " not allowed; use "@ + allowed;
    replies::lemma_error_reply(b, 405, m);
    let t = json::object_of(seq![("error"@, json::string_text(m, true))], true);
    replies::lemma_other_field(before, "Allow"@, allowed, 405, t);
}

pub proof fn lemma_paths_differ()
    ensures
        "/auto_unlock"@.len() == 12 && "/auto_hangup"@.len() == 12 && "/automation"@.len() == 11,
        "/info"@.len() == 5 && "/playback"@.len() == 9 && "/unlock"@.len() == 7,
        "/video/start"@.len() == 12 && "/video/stop"@.len() == 11,
        "/auto_unlock"@ != "/auto_hangup"@,
        "/auto_unlock"@ != "/video/start"@,
        "/auto_hangup"@ != "/video/start"@,
        "/automation"@ != "/video/stop"@,
        "GET"@ != "POST"@,
        forall|p: Seq<char>| #[trigger] text::has_prefix(p, "/video/"@) ==> p != "/auto_unlock"@ && p
            != "/auto_hangup"@ && p != "/automation"@ && p != "/info"@ && p != "/playback"@ && p
            != "/unlock"@,
{
    reveal_strlit("/auto_unlock");
    reveal_strlit("/auto_hangup");
    reveal_strlit("/automation");
    reveal_strlit("/info");
    reveal_strlit("/playback");
    reveal_strlit("/unlock");
    reveal_strlit("/video/start");
    reveal_strlit("/video/stop");
    reveal_strlit("/video/");
    reveal_strlit("GET");
    reveal_strlit("POST");
    assert("GET"@.len() != "POST"@.len());
    assert("/auto_unlock"@[6] != "/auto_hangup"@[6]);
    assert("/auto_unlock"@[1] != "/video/start"@[1]);
    assert("/auto_hangup"@[1] != "/video/start"@[1]);
    assert("/automation"@[1] != "/video/stop"@[1]);
    assert forall|p: Seq<char>| #[trigger] text::has_prefix(p, "/video/"@) implies p
        != "/auto_unlock"@ && p != "/auto_hangup"@ && p != "/automation"@ && p != "/info"@ && p
        != "/playback"@ && p != "/unlock"@ by {
        assert(p.take(7)[1] == p[1]);
        assert("/video/"@[1] == 'v');
    }
}

/// A request to change something without a JSON body is answered with 415, and one to unlock with
/// -100 where no station is configured. Nothing comes of either.
#[verifier::rlimit(40)]
pub proof fn law_other_refusals<W: ResponseWriter>(
    s: &mut Server,
    w: &mut W,
    r: Request,
    a: Action,
)
    requires
        replies::unsent(old(w).reply()),
        call_ensures(Server::serve_http::<W>, (s, w, &r), a),
        r.method@ == "POST"@,
    ensures
        ({
            let p = r.url.path@;
            let changes = p == "/auto_unlock"@ || p == "/auto_hangup"@ || p == "/unlock"@ || p
                == "/video/start"@ || p == "/video/stop"@;
            let y = final(w).reply();
            &&& changes && !r.header@.dom().contains("Content-Type"@) ==> a is Done && untouched(
                *final(s),
                *old(s),
            ) && replies::complains(y, 415, "Content-Type must be application/json"@)
            &&& p == "/unlock"@ && posts_json(r) && old(s).cfg.stations@.len() == 0 ==> a is Done
                && untouched(*final(s), *old(s)) && replies::says(y, 200, "{\"result\":-100}"@)
        }),
{
    lemma_paths_differ();
    header::lemma_names();
    let before = old(w).reply();
    replies::lemma_error_reply(before, 415, "Content-Type must be application/json"@);
    replies::lemma_codes();
    replies::lemma_result_texts();
    replies::lemma_result_reply(before, 200, -100);
    if posts_json(r) {
        lemma_posts_json(r, before);
    }
    assert(old(s)@.cfg.stations.len() == old(s).cfg.stations@.len());
    assert(a@ is Done ==> a is Done);
}

// ---------------------------------------------------------------------------
// Flags
// ---------------------------------------------------------------------------

/// What a posted flag changes is that flag alone, and it is to be saved; a look at both shows it,
/// and changes nothing.
#[verifier::rlimit(40)]
pub proof fn law_posted_flags<W: ResponseWriter>(
    s: &mut Server,
    w: &mut W,
    r: Request,
    act: Action,
    on: bool,
    a: Seq<u8>,
    b: Seq<u8>,
    c: Seq<u8>,
    d: Seq<u8>,
    e: Seq<u8>,
    f: Seq<u8>,
)
    requires
        replies::unsent(old(w).reply()),
        call_ensures(Server::serve_http::<W>, (s, w, &r), act),
        posts_json(r),
        answers::asks_for(r.body@, on, a, b, c, d, e, f),
        old(s).automation is Some,
    ensures
        ({
            let (was, is) = (old(s).automation->0, final(s).automation->0);
            let y = final(w).reply();
            &&& r.url.path@ == "/auto_unlock"@ ==> act is Save && final(s).automation is Some
                && is.auto_unlock == on && is.auto_hangup == was.auto_hangup && replies::says(
                y,
                200,
                "{\"result\":0,\"auto_unlock\":"@ + replies::flag(on) + "}"@,
            )
            &&& r.url.path@ == "/auto_hangup"@ ==> act is Save && final(s).automation is Some
                && is.auto_hangup == on && is.auto_unlock == was.auto_unlock && replies::says(
                y,
                200,
                "{\"result\":0,\"auto_hangup\":"@ + replies::flag(on) + "}"@,
            )
            &&& final(s)@.cfg == old(s)@.cfg && final(s)@.version == old(s)@.version
            &&& final(s).pid == old(s).pid && final(s).video == old(s).video
        }),
{
    lemma_paths_differ();
    let before = old(w).reply();
    lemma_posts_json(r, before);
    answers::lemma_asked(r.body@, on, a, b, c, d, e, f);
    answers::lemma_flag_texts(on);
    let t = json::object_of(
        seq![("result"@, text::dec_int(0)), ("auto_unlock"@, crate::info::flag_text(on))],
        true,
    );
    let u = json::object_of(
        seq![("result"@, text::dec_int(0)), ("auto_hangup"@, crate::info::flag_text(on))],
        true,
    );
    reveal_strlit("}");
    replies::lemma_json(before, 200, t);
    replies::lemma_json(before, 200, u);
    assert(act@ is Save ==> act is Save);
    assert(final(s)@.automation == final(s).automation);
}

/// A look at the flags shows what they are, and changes nothing.
#[verifier::rlimit(40)]
pub proof fn law_flags_are_seen<W: ResponseWriter>(s: &mut Server, w: &mut W, r: Request, a: Action)
    requires
        replies::unsent(old(w).reply()),
        call_ensures(Server::serve_http::<W>, (s, w, &r), a),
        r.url.path@ == "/automation"@,
        r.method@ == "GET"@,
        old(s).automation is Some,
    ensures
        a is Done,
        untouched(*final(s), *old(s)),
        replies::says(
            final(w).reply(),
            200,
            answers::both_flags(
                old(s).automation->0.auto_unlock,
                old(s).automation->0.auto_hangup,
            ),
        ),
{
    lemma_paths_differ();
    let f = old(s).automation->0;
    answers::lemma_both_flags(f.auto_unlock, f.auto_hangup);
    replies::lemma_json(
        old(w).reply(),
        200,
        answers::both_flags(f.auto_unlock, f.auto_hangup),
    );
    assert(a@ is Done ==> a is Done);
}

/// Of playback there is none: the answer is empty.
pub proof fn law_no_playback<W: ResponseWriter>(s: &mut Server, w: &mut W, r: Request, a: Action)
    requires
        replies::unsent(old(w).reply()),
        call_ensures(Server::serve_http::<W>, (s, w, &r), a),
        r.url.path@ == "/playback"@,
        r.method@ == "GET"@,
    ensures
        a is Done,
        untouched(*final(s), *old(s)),
        replies::carries(final(w).reply(), 200, Seq::empty()),
        replies::has_field(final(w).reply(), "Content-Length"@, "0"@),
{
    lemma_paths_differ();
    header::lemma_names();
    let set = old(w).reply().with_field("Content-Length"@, "0"@);
    assert(header::field(set.with_field("Connection"@, "close"@).header, "Content-Length"@)
        is Some);
    assert(a@ is Done ==> a is Done);
}

// ---------------------------------------------------------------------------
// Unlocking
// ---------------------------------------------------------------------------

/// The body of a request to unlock.
pub open spec fn unlock_body(from: Seq<char>, to: Seq<char>) -> Seq<u8> {
    encode_utf8("{\"from\":\""@ + from + "\",\"to\":\""@ + to + "\"}"@)
}

/// Characters that stand in addresses.
pub open spec fn plain_char(c: char) -> bool {
    forms::hex_of(c) is Some || c == '@' || c == '.' || c == ':'
}

pub open spec fn plain(t: Seq<char>) -> bool {
    forall|i: int| 0 <= i < t.len() ==> plain_char(#[trigger] t[i])
}

pub proof fn lemma_address_plain(name: Seq<char>, ip: Seq<u8>, port: u16)
    requires
        forms::is_number(name),
        ip.len() == 4,
    ensures
        plain(forms::address(name, ip, port)),
        forms::address(name, ip, port).len() > 0,
{
    forms::lemma_dotted(ip);
    text::lemma_dec_reads_back(port as nat);
    let u = forms::address(name, ip, port);
    let d = forms::dotted(ip);
    let p = text::dec(port as nat);
    assert forall|i: int| 0 <= i < u.len() implies plain_char(#[trigger] u[i]) by {
        if i < 8 {
            assert(u[i] == name[i]);
            assert(forms::hex_of(name[i]) is Some);
        } else if 9 <= i < 9 + d.len() {
            assert(u[i] == d[i - 9]);
            assert(text::is_digit(d[i - 9]) || d[i - 9] == '.');
        } else if i > 9 + d.len() {
            assert(u[i] == p[i - 10 - d.len()]);
            assert(text::is_digit(p[i - 10 - d.len()]));
        }
    }
}

pub proof fn lemma_plain_char(c: char)
    requires
        plain_char(c),
    ensures
        json::char_text(c, true) == seq![c],
        0x20 < c as u32 <= 0x7f,
        c as u8 >= 0x20,
        c as u8 != '"' as u8,
        c as u8 != '\\' as u8,
{
}

proof fn lemma_plain_bytes(s: Seq<u8>, pos: int, n: nat)
    requires
        0 <= pos,
        pos + n < s.len(),
        forall|i: int|
            pos <= i < pos + n ==> #[trigger] s[i] >= 0x20 && s[i] != 0x22 && s[i] != 0x5c,
        s[pos + n] == 0x22,
    ensures
        syntax::string_end(s, pos) == Ok::<int, Seq<char>>(pos + n + 1),
    decreases n,
{
    if n > 0 {
        assert(s[pos] >= 0x20);
        lemma_plain_bytes(s, pos + 1, (n - 1) as nat);
    }
}

/// The bytes of such a body.
#[verifier::rlimit(40)]
proof fn lemma_body_bytes(from: Seq<char>, to: Seq<char>)
    requires
        plain(from),
        plain(to),
    ensures
        ({
            let s = unlock_body(from, to);
            let (m, n) = (from.len(), to.len());
            &&& s.len() == m + n + 19
            &&& s[0] == 0x7b && s[1] == 0x22 && s[2] == 0x66 && s[3] == 0x72 && s[4] == 0x6f
            &&& s[5] == 0x6d && s[6] == 0x22 && s[7] == 0x3a && s[8] == 0x22
            &&& forall|i: int|
                9 <= i < 9 + m ==> #[trigger] s[i] >= 0x21 && s[i] != 0x22 && s[i] != 0x5c
            &&& s[9 + m as int] == 0x22 && s[10 + m as int] == 0x2c && s[11 + m as int] == 0x22
            &&& s[12 + m as int] == 0x74 && s[13 + m as int] == 0x6f && s[14 + m as int] == 0x22
            &&& s[15 + m as int] == 0x3a && s[16 + m as int] == 0x22
            &&& forall|i: int|
                17 + m <= i < 17 + m + n ==> #[trigger] s[i] >= 0x21 && s[i] != 0x22 && s[i] != 0x5c
            &&& s[17 + (m + n) as int] == 0x22 && s[18 + (m + n) as int] == 0x7d
        }),
{
    reveal_strlit("{\"from\":\"");
    reveal_strlit("\",\"to\":\"");
    reveal_strlit("\"}");
    let t = "{\"from\":\""@ + from + "\",\"to\":\""@ + to + "\"}"@;
    let (m, n) = (from.len() as int, to.len() as int);
    assert(t.len() == m + n + 19);
    assert forall|i: int| 9 <= i < 9 + m implies plain_char(#[trigger] t[i]) by {
        assert(t[i] == from[i - 9]);
        assert(plain_char(from[i - 9]));
    }
    assert forall|i: int| 17 + m <= i < 17 + m + n implies plain_char(#[trigger] t[i]) by {
        assert(t[i] == to[i - 17 - m]);
        assert(plain_char(to[i - 17 - m]));
    }
    assert forall|i: int| 0 <= i < t.len() implies '\0' <= #[trigger] t[i] <= '\u{7f}' by {
        if 9 <= i < 9 + m || 17 + m <= i < 17 + m + n {
            assert(plain_char(t[i]));
            lemma_plain_char(t[i]);
        }
    }
    is_ascii_chars_encode_utf8(t);
    let s = encode_utf8(t);
    assert forall|i: int| 9 <= i < 9 + m implies #[trigger] s[i] >= 0x21 && s[i] != 0x22 && s[i]
        != 0x5c by {
        assert(s[i] == t[i] as u8);
        assert(plain_char(t[i]));
        lemma_plain_char(t[i]);
    }
    assert forall|i: int| 17 + m <= i < 17 + m + n implies #[trigger] s[i] >= 0x21 && s[i] != 0x22
        && s[i] != 0x5c by {
        assert(s[i] == t[i] as u8);
        assert(plain_char(t[i]));
        lemma_plain_char(t[i]);
    }
    assert(t[0] == '{' && t[1] == '"' && t[2] == 'f' && t[3] == 'r' && t[4] == 'o' && t[5] == 'm');
    assert(t[6] == '"' && t[7] == ':' && t[8] == '"');
    assert(t[9 + m] == '"' && t[10 + m] == ',' && t[11 + m] == '"' && t[12 + m] == 't');
    assert(t[13 + m] == 'o' && t[14 + m] == '"' && t[15 + m] == ':' && t[16 + m] == '"');
    assert(t[17 + m + n] == '"' && t[18 + m + n] == '}');
    assert(s[0] == t[0] as u8 && s[1] == t[1] as u8 && s[2] == t[2] as u8 && s[3] == t[3] as u8);
    assert(s[4] == t[4] as u8 && s[5] == t[5] as u8 && s[6] == t[6] as u8 && s[7] == t[7] as u8);
    assert(s[8] == t[8] as u8 && s[9 + m] == t[9 + m] as u8 && s[10 + m] == t[10 + m] as u8);
    assert(s[11 + m] == t[11 + m] as u8 && s[12 + m] == t[12 + m] as u8);
    assert(s[13 + m] == t[13 + m] as u8 && s[14 + m] == t[14 + m] as u8);
    assert(s[15 + m] == t[15 + m] as u8 && s[16 + m] == t[16 + m] as u8);
    assert(s[17 + m + n] == t[17 + m + n] as u8 && s[18 + m + n] == t[18 + m + n] as u8);
}

/// The second member is accepted.
#[verifier::rlimit(40)]
proof fn lemma_second_member(from: Seq<char>, to: Seq<char>)
    requires
        plain(from),
        plain(to),
    ensures
        ({
            let s = unlock_body(from, to);
            let m = from.len() as int;
            syntax::members_end(s, 11 + m) == Ok::<int, Seq<char>>(s.len() as int)
        }),
{
    lemma_body_bytes(from, to);
    let s = unlock_body(from, to);
    let (m, n) = (from.len() as int, to.len() as int);
    lemma_plain_bytes(s, 12 + m, 2);
    lemma_plain_bytes(s, 17 + m, to.len());
    assert(syntax::ws_end(s, 16 + m) == 16 + m);
    assert(syntax::value_end(s, 16 + m) == Ok::<int, Seq<char>>(18 + m + n));
    assert(syntax::ws_end(s, 18 + m + n) == 18 + m + n);
    assert(syntax::ws_end(s, 11 + m) == 11 + m);
    assert(syntax::ws_end(s, 15 + m) == 15 + m);
}

#[verifier::rlimit(40)]
proof fn lemma_both_members(from: Seq<char>, to: Seq<char>)
    requires
        plain(from),
        plain(to),
    ensures
        ({
            let s = unlock_body(from, to);
            syntax::members_end(s, 1) == Ok::<int, Seq<char>>(s.len() as int)
        }),
{
    lemma_body_bytes(from, to);
    lemma_second_member(from, to);
    let s = unlock_body(from, to);
    let m = from.len() as int;
    lemma_plain_bytes(s, 2, 4);
    lemma_plain_bytes(s, 9, from.len());
    assert(syntax::ws_end(s, 8) == 8);
    assert(syntax::value_end(s, 8) == Ok::<int, Seq<char>>(10 + m));
    assert(syntax::ws_end(s, 1) == 1);
    assert(syntax::ws_end(s, 7) == 7);
    assert(syntax::ws_end(s, 10 + m) == 10 + m);
}

#[verifier::rlimit(40)]
proof fn lemma_body_accepted(from: Seq<char>, to: Seq<char>)
    requires
        plain(from),
        plain(to),
    ensures
        syntax::body_fault(unlock_body(from, to)) is None,
{
    lemma_body_bytes(from, to);
    lemma_both_members(from, to);
    let s = unlock_body(from, to);
    let end = s.len() as int;
    assert(syntax::trimmed(s) == s);
    assert(syntax::ws_end(s, 1) == 1);
    assert(syntax::ws_end(s, 0) == 0);
    assert(syntax::object_end(s, 0) == Ok::<int, Seq<char>>(end));
    assert(syntax::value_end(s, 0) == Ok::<int, Seq<char>>(end));
    assert(syntax::ws_end(s, end) == end);
}

/// Such a body as an object of two texts.
proof fn lemma_body_text(from: Seq<char>, to: Seq<char>, a: Seq<char>, b: Seq<char>)
    requires
        a == seq!['"'] + from + seq!['"'],
        b == seq!['"'] + to + seq!['"'],
    ensures
        json::object_of(seq![("from"@, a), ("to"@, b)], true) == "{\"from\":\""@ + from
            + "\",\"to\":\""@ + to + "\"}"@,
{
    assert(replies::is_key("from"@) && seq!['{', '"'] + "from"@ + seq!['"', ':', '"']
        =~= "{\"from\":\""@) by {
        reveal_strlit("from");
        reveal_strlit("{\"from\":\"");
    }
    assert(replies::is_key("to"@) && seq!['"', ',', '"'] + "to"@ + seq!['"', ':', '"']
        =~= "\",\"to\":\""@) by {
        reveal_strlit("to");
        reveal_strlit("\",\"to\":\"");
    }
    assert(seq!['"', '}'] =~= "\"}"@) by {
        reveal_strlit("\"}");
    }
    replies::lemma_object_two("from"@, a, "to"@, b);
    let k = seq!['{', '"'] + "from"@;
    let l = "to"@;
    lemma_quotes(k, from, l, to);
}

/// Quotes go with what stands before and behind them.
#[verifier::rlimit(40)]
proof fn lemma_quotes(k: Seq<char>, f: Seq<char>, l: Seq<char>, t: Seq<char>)
    ensures
        k + seq!['"', ':'] + (seq!['"'] + f + seq!['"']) + seq![',', '"'] + l + seq!['"', ':'] + (
        seq!['"'] + t + seq!['"']) + seq!['}'] == (k + seq!['"', ':', '"']) + f + (seq!['"', ',', '"']
            + l + seq!['"', ':', '"']) + t + seq!['"', '}'],
{
    assert(k + seq!['"', ':'] + (seq!['"'] + f + seq!['"']) + seq![',', '"'] + l + seq!['"', ':']
        + (seq!['"'] + t + seq!['"']) + seq!['}'] =~= (k + seq!['"', ':', '"']) + f + (seq![
        '"',
        ',',
        '"',
    ] + l + seq!['"', ':', '"']) + t + seq!['"', '}']);
}

#[verifier::rlimit(40)]
proof fn lemma_body_fields(from: Seq<char>, to: Seq<char>)
    requires
        plain(from),
        plain(to),
    ensures
        fields::text_or_empty(unlock_body(from, to), "from"@) == from,
        fields::text_or_empty(unlock_body(from, to), "to"@) == to,
{
    assert forall|i: int| 0 <= i < from.len() implies json::char_text(#[trigger] from[i], true)
        == seq![from[i]] by {
        assert(plain_char(from[i]));
        lemma_plain_char(from[i]);
    }
    assert forall|i: int| 0 <= i < to.len() implies json::char_text(#[trigger] to[i], true)
        == seq![to[i]] by {
        assert(plain_char(to[i]));
        lemma_plain_char(to[i]);
    }
    lemma_unescaped(from);
    lemma_unescaped(to);
    written::law_unlock_body_reads_back(from, to, true);
    let ps = seq![("from"@, from), ("to"@, to)];
    let (a, b) = (json::string_text(from, true), json::string_text(to, true));
    assert(written::text_members(ps, true) =~= seq![("from"@, a), ("to"@, b)]);
    lemma_body_text(from, to, a, b);
}

pub proof fn lemma_unescaped(t: Seq<char>)
    requires
        forall|i: int| 0 <= i < t.len() ==> json::char_text(#[trigger] t[i], true) == seq![t[i]],
    ensures
        json::chars_text(t, true) == t,
    decreases t.len(),
{
    if t.len() > 0 {
        let r = t.drop_last();
        assert forall|i: int| 0 <= i < r.len() implies json::char_text(#[trigger] r[i], true)
            == seq![r[i]] by {
            assert(r[i] == t[i]);
        }
        lemma_unescaped(r);
        assert(json::char_text(t[t.len() - 1], true) == seq![t[t.len() - 1]]);
        assert(r + seq![t.last()] =~= t);
    } else {
        assert(json::chars_text(t, true) =~= t);
    }
}

/// A request to unlock is carried out at the station it names, which is the caller; the monitor is
/// the one called. Nothing is answered yet.
#[verifier::rlimit(40)]
pub proof fn law_unlock_is_dispatched<W: ResponseWriter>(
    s: &mut Server,
    w: &mut W,
    r: Request,
    a: Action,
    from: (Seq<char>, Seq<u8>, u16),
    to: (Seq<char>, Seq<u8>, u16),
)
    requires
        call_ensures(Server::serve_http::<W>, (s, w, &r), a),
        r.url.path@ == "/unlock"@,
        posts_json(r),
        old(s).cfg.stations@.len() > 0,
        forms::is_number(from.0) && from.1.len() == 4 && from.2 >= 1,
        forms::is_number(to.0) && to.1.len() == 4 && to.2 >= 1,
        r.body@ == unlock_body(
            forms::address(from.0, from.1, from.2),
            forms::address(to.0, to.1, to.2),
        ),
        r.body@.len() <= 1048576,
    ensures
        a matches Action::Dispatch(p) && {
            &&& p.from@ == forms::address(from.0, from.1, from.2)
            &&& p.to@ == forms::address(to.0, to.1, to.2)
            &&& forms::packs(p.caller_bcd@, to.0)
            &&& forms::packs(p.callee_bcd@, from.0)
            &&& p.target_ip@ == forms::dotted(to.1)
            &&& p.target_port == to.2
        },
        final(w).reply() == old(w).reply(),
        untouched(*final(s), *old(s)),
{
    lemma_paths_differ();
    lemma_posts_json(r, old(w).reply());
    assert(old(s)@.cfg.stations.len() == old(s).cfg.stations@.len());
    lemma_unlock_plan(r.body@, from, to);
    assert(a@ is Dispatch);
}

/// The unlock that a body asks for.
#[verifier::rlimit(40)]
pub proof fn lemma_unlock_plan(
    body: Seq<u8>,
    from: (Seq<char>, Seq<u8>, u16),
    to: (Seq<char>, Seq<u8>, u16),
)
    requires
        forms::is_number(from.0) && from.1.len() == 4 && from.2 >= 1,
        forms::is_number(to.0) && to.1.len() == 4 && to.2 >= 1,
        body == unlock_body(
            forms::address(from.0, from.1, from.2),
            forms::address(to.0, to.1, to.2),
        ),
        body.len() <= 1048576,
    ensures
        endpoints::unlock_plan(body) matches Ok(p) && {
            &&& p.from == forms::address(from.0, from.1, from.2)
            &&& p.to == forms::address(to.0, to.1, to.2)
            &&& forms::packs(p.caller_bcd, to.0)
            &&& forms::packs(p.callee_bcd, from.0)
            &&& p.target_ip == forms::dotted(to.1)
            &&& p.target_port == to.2
        },
{
    let f = forms::address(from.0, from.1, from.2);
    let t = forms::address(to.0, to.1, to.2);
    lemma_address_plain(from.0, from.1, from.2);
    lemma_address_plain(to.0, to.1, to.2);
    lemma_body_accepted(f, t);
    lemma_body_fields(f, t);
    lemma_body_bytes(f, t);
    forms::lemma_address(from.0, from.1, from.2);
    forms::lemma_address(to.0, to.1, to.2);
    forms::lemma_number(from.0);
    forms::lemma_number(to.0);
    assert(control::body_read(body) == body);
}

/// A request to unlock that does not say where is answered with 400.
pub proof fn law_unlock_needs_a_station<W: ResponseWriter>(
    s: &mut Server,
    w: &mut W,
    r: Request,
    a: Action,
)
    requires
        replies::unsent(old(w).reply()),
        call_ensures(Server::serve_http::<W>, (s, w, &r), a),
        r.url.path@ == "/unlock"@,
        posts_json(r),
        old(s).cfg.stations@.len() > 0,
        r.body@.len() == 0,
    ensures
        a is Done,
        untouched(*final(s), *old(s)),
        replies::complains(final(w).reply(), 400, "missing 'to' field"@),
{
    lemma_paths_differ();
    lemma_posts_json(r, old(w).reply());
    assert(old(s)@.cfg.stations.len() == old(s).cfg.stations@.len());
    replies::lemma_error_reply(old(w).reply(), 400, "missing 'to' field"@);
    assert(a@ is Done ==> a is Done);
}

} // verus!
