//! Events and how they are reported.

use vstd::prelude::*;
use vstd::string::*;
use vstd::utf8::*;

use super::forms;
use crate::config::Config;
use crate::control::endpoints;
use crate::ha_push;
use crate::ha_push::{build_url, discover_ha_facing_ip, facing_target, iface_name_bytes, lookup_wwan,
    pick_non_loopback_ipv4, push_done, HaPushClient, PushError};
use crate::httpx::client::ClientRequest;
use crate::httpx::header;
use crate::httpx::json;
use crate::text;

verus! {

// ---------------------------------------------------------------------------
// Requests
// ---------------------------------------------------------------------------

/// The URL of the API: the host stands in brackets where it is an IPv6 address, and as it is
/// otherwise.
pub proof fn law_urls(host: &str, port: i64, api: &str, out: String)
    requires
        call_ensures(build_url, (host, port, api), out),
    ensures
        (forall|i: int| 0 <= i < host@.len() ==> host@[i] != ':') ==> out@ == "http://"@ + host@
            + ":"@ + text::dec_int(port as int) + api@,
        (exists|i: int| 0 <= i < host@.len() && host@[i] == ':') ==> out@ == "http://["@ + host@
            + "]:"@ + text::dec_int(port as int) + api@,
{
    text::lemma_find(host@, ':');
    if exists|i: int| 0 <= i < host@.len() && host@[i] == ':' {
        if text::find(host@, ':') is None {
            text::lemma_find(host@, ':');
        }
        let tail = text::dec_int(port as int) + api@;
        assert("http://"@ + ("["@ + host@ + "]"@) + ":"@ =~= "http://["@ + host@ + "]:"@) by {
            reveal_strlit("http://");
            reveal_strlit("[");
            reveal_strlit("]");
            reveal_strlit(":");
            reveal_strlit("http://[");
            reveal_strlit("]:");
        }
    } else {
        text::lemma_find_none(host@, ':');
    }
}

/// The value that is reported under a key: that of the last field with it, and for `event` the
/// event where no field has that key.
pub open spec fn value_for(
    event: Seq<char>,
    fields: Seq<(Seq<char>, Seq<char>)>,
    key: Seq<char>,
) -> Option<Seq<char>>
    decreases fields.len(),
{
    if fields.len() == 0 {
        if key == "event"@ {
            Some(event)
        } else {
            None
        }
    } else if fields.last().0 == key {
        Some(fields.last().1)
    } else {
        value_for(event, fields.drop_last(), key)
    }
}

/// Whether the members of a body are what is to be reported: each key once, in order, with its
/// value.
pub open spec fn tells(
    ps: Seq<(Seq<char>, Seq<char>)>,
    event: Seq<char>,
    fields: Seq<(Seq<char>, Seq<char>)>,
) -> bool {
    &&& forall|i: int, j: int|
        0 <= i < j < ps.len() ==> #[trigger] text::text_before(ps[i].0, ps[j].0)
    &&& forall|i: int|
        0 <= i < ps.len() ==> (value_for(event, fields, (#[trigger] ps[i]).0) matches Some(v)
            && ps[i].1 == json::string_text(v, true))
    &&& forall|k: Seq<char>| #[trigger]
        value_for(event, fields, k) is Some ==> has_key(ps, k)
}

pub open spec fn has_key(ps: Seq<(Seq<char>, Seq<char>)>, k: Seq<char>) -> bool {
    exists|i: int| 0 <= i < ps.len() && (#[trigger] ps[i]).0 == k
}

#[verifier::rlimit(40)]
proof fn lemma_put(ps: Seq<(Seq<char>, Seq<char>)>, k: Seq<char>, t: Seq<char>)
    requires
        forall|i: int, j: int|
            0 <= i < j < ps.len() ==> #[trigger] text::text_before(ps[i].0, ps[j].0),
    ensures
        ({
            let out = json::put_pair(ps, k, t);
            &&& forall|i: int|
                0 <= i < out.len() ==> (#[trigger] out[i]) == (k, t) || out[i].0 != k
                    && ps.contains(out[i])
            &&& has_key(out, k)
            &&& forall|q: Seq<char>| #[trigger] has_key(ps, q) ==> has_key(out, q)
        }),
    decreases ps.len(),
{
    let out = json::put_pair(ps, k, t);
    if ps.len() == 0 {
        assert(out[0].0 == k);
    } else {
        text::lemma_before_total(ps[0].0, k);
        let rest = ps.skip(1);
        assert forall|i: int, j: int| 0 <= i < j < rest.len() implies #[trigger] text::text_before(
            rest[i].0,
            rest[j].0,
        ) by {
            assert(text::text_before(ps[i + 1].0, ps[j + 1].0));
        }
        if text::text_before(ps[0].0, k) {
            lemma_put(rest, k, t);
            let tail = json::put_pair(rest, k, t);
            assert(ps[0].0 != k) by {
                text::lemma_before_total(k, k);
            }
            assert forall|i: int| 0 <= i < out.len() implies (#[trigger] out[i]) == (k, t)
                || out[i].0 != k && ps.contains(out[i]) by {
                if i == 0 {
                    assert(out[0] == ps[0]);
                    assert(ps.contains(ps[0]));
                } else {
                    assert(out[i] == tail[i - 1]);
                    if tail[i - 1] != (k, t) {
                        let m = choose|m: int| 0 <= m < rest.len() && rest[m] == tail[i - 1];
                        assert(ps[m + 1] == out[i]);
                    }
                }
            }
            let m = choose|m: int| 0 <= m < tail.len() && (#[trigger] tail[m]).0 == k;
            assert(out[m + 1].0 == k);
            assert forall|q: Seq<char>| #[trigger] has_key(ps, q) implies has_key(out, q) by {
                let n = choose|n: int| 0 <= n < ps.len() && (#[trigger] ps[n]).0 == q;
                if n == 0 {
                    assert(out[0].0 == q);
                } else {
                    assert(rest[n - 1].0 == q);
                    assert(has_key(rest, q));
                    let m = choose|m: int| 0 <= m < tail.len() && (#[trigger] tail[m]).0 == q;
                    assert(out[m + 1].0 == q);
                }
            }
        } else if ps[0].0 == k {
            assert(out[0].0 == k);
            assert forall|i: int| 0 <= i < out.len() implies (#[trigger] out[i]) == (k, t)
                || out[i].0 != k && ps.contains(out[i]) by {
                if i > 0 {
                    assert(out[i] == ps[i]);
                    assert(text::text_before(ps[0].0, ps[i].0));
                    text::lemma_before_total(k, ps[i].0);
                    text::lemma_before_total(k, k);
                }
            }
            assert forall|q: Seq<char>| #[trigger] has_key(ps, q) implies has_key(out, q) by {
                let n = choose|n: int| 0 <= n < ps.len() && (#[trigger] ps[n]).0 == q;
                assert(out[n].0 == q);
            }
        } else {
            assert(out[0].0 == k);
            assert forall|i: int| 0 <= i < out.len() implies (#[trigger] out[i]) == (k, t)
                || out[i].0 != k && ps.contains(out[i]) by {
                if i > 0 {
                    assert(out[i] == ps[i - 1]);
                    if i > 1 {
                        assert(text::text_before(ps[0].0, ps[i - 1].0));
                        text::lemma_before_transitive(k, ps[0].0, ps[i - 1].0);
                        text::lemma_before_total(k, k);
                    }
                }
            }
            assert forall|q: Seq<char>| #[trigger] has_key(ps, q) implies has_key(out, q) by {
                let n = choose|n: int| 0 <= n < ps.len() && (#[trigger] ps[n]).0 == q;
                assert(out[n + 1].0 == q);
            }
        }
    }
}

#[verifier::rlimit(40)]
proof fn lemma_tells(event: Seq<char>, fields: Seq<(Seq<char>, Seq<char>)>, n: nat)
    requires
        n <= fields.len(),
    ensures
        tells(ha_push::body_pairs(event, fields, n), event, fields.take(n as int)),
    decreases n,
{
    let ps = ha_push::body_pairs(event, fields, n);
    let now = fields.take(n as int);
    if n == 0 {
        assert(ps[0].0 == "event"@);
    } else {
        let before = ha_push::body_pairs(event, fields, (n - 1) as nat);
        let f = fields[n - 1];
        let t = json::string_text(f.1, true);
        lemma_tells(event, fields, (n - 1) as nat);
        assert(now.drop_last() =~= fields.take(n - 1));
        ha_push::law_body_sorted(event, fields, n);
        lemma_put(before, f.0, t);
        assert forall|i: int| 0 <= i < ps.len() implies (value_for(event, now, (#[trigger] ps[i]).0)
            matches Some(v) && ps[i].1 == json::string_text(v, true)) by {
            if ps[i] != (f.0, t) {
                let m = choose|m: int| 0 <= m < before.len() && before[m] == ps[i];
                assert(value_for(event, now.drop_last(), before[m].0) is Some);
            }
        }
        assert forall|k: Seq<char>| #[trigger] value_for(event, now, k) is Some implies has_key(
            ps,
            k,
        ) by {
            if k != f.0 {
                assert(value_for(event, now.drop_last(), k) is Some);
                assert(has_key(before, k));
            }
        }
    }
}

/// The request that reports an event: a `POST` to the API with the token, whose body is an object
/// with the event and the fields; a later field of a name takes the place of an earlier one. The
/// body is logged as it is sent.
pub proof fn law_events_are_reported(
    c: HaPushClient,
    event: &str,
    fields: &[(String, String)],
    r: (String, Result<ClientRequest, PushError>),
)
    requires
        call_ensures(HaPushClient::push, (&c, event, fields), r),
        c.cfg.hass.api@.len() > 0,
        forall|i: int| 0 <= i < c.cfg.hass.ipaddr@.len() ==> c.cfg.hass.ipaddr@[i] != ':',
    ensures
        r.1 matches Ok(q) && {
            let pairs = endpoints::pair_views(fields@);
            let ps = ha_push::body_pairs(event@, pairs, pairs.len());
            &&& q.method@ == "POST"@
            &&& q.url@ == "http://"@ + c.cfg.hass.ipaddr@ + ":"@ + text::dec_int(
                c.cfg.hass.port as int,
            ) + c.cfg.hass.api@
            &&& q.header@.dom().contains("Content-Type"@)
            &&& q.header@["Content-Type"@] == seq!["application/json"@]
            &&& q.header@.dom().contains("Authorization"@)
            &&& q.header@["Authorization"@] == seq!["Bearer "@ + c.cfg.hass.token@]
            &&& q.body@ == encode_utf8(json::object_of(ps, true))
            &&& tells(ps, event@, pairs)
            &&& r.0@ == "HA Push: "@ + json::object_of(ps, true)
        },
{
    let pairs = endpoints::pair_views(fields@);
    lemma_tells(event@, pairs, pairs.len());
    assert(pairs.take(pairs.len() as int) =~= pairs);
    text::lemma_find_none(c.cfg.hass.ipaddr@, ':');
    header::lemma_names();
    assert(header::canonical("Authorization"@) == "Authorization"@ && "Authorization"@.len() == 13)
        by {
        reveal_strlit("Authorization");
        header::lemma_canonical_ascii("Authorization"@);
        assert(header::ascii_canonical("Authorization"@) =~= "Authorization"@);
    }
}

/// Where no API is configured nothing is reported, and that is logged.
pub proof fn law_nothing_to_report_to(
    c: HaPushClient,
    event: &str,
    fields: &[(String, String)],
    r: (String, Result<ClientRequest, PushError>),
    made: HaPushClient,
    cfg: Config,
)
    requires
        call_ensures(HaPushClient::push, (&c, event, fields), r),
        c.cfg.hass.api@.len() == 0,
        call_ensures(HaPushClient::new, (cfg,), made),
    ensures
        r.0@ == "HA Push skipped: api not configured"@,
        r.1 matches Err(PushError::NotConfigured(_)),
        made.cfg@ == cfg@,
        made.http.timeout == Some(5_000_000_000u64),
{
}

/// The report on the program itself has the own address towards the server, or else that of the
/// interface, and says whether and how video is forwarded.
#[verifier::rlimit(40)]
pub proof fn law_diagnosis_is_reported(
    c: HaPushClient,
    facing: &str,
    wwan: &str,
    r: (String, Result<ClientRequest, PushError>),
    k: Seq<char>,
)
    requires
        call_ensures(HaPushClient::push_diagnosis, (&c, facing, wwan), r),
        c.cfg.hass.api@.len() > 0,
    ensures
        r.1 matches Ok(q) && {
            let pairs = c.diagnosis(facing@, wwan@);
            let ps = ha_push::body_pairs("diagnosis"@, pairs, pairs.len());
            &&& q.body@ == encode_utf8(json::object_of(ps, true))
            &&& tells(ps, "diagnosis"@, pairs)
            &&& value_for("diagnosis"@, pairs, "event"@) == Some("diagnosis"@)
            &&& value_for("diagnosis"@, pairs, "video_forward"@) == Some(
                if c.cfg.video.forward {
                    "1"@
                } else {
                    "0"@
                },
            )
            &&& value_for("diagnosis"@, pairs, "video_format"@) == Some(c.cfg.video.format@)
            &&& value_for("diagnosis"@, pairs, "wwan"@) == Some(
                if facing@.len() > 0 {
                    facing@
                } else {
                    wwan@
                },
            )
            &&& k != "event"@ && k != "video_forward"@ && k != "video_format"@ && k != "wwan"@
                ==> value_for("diagnosis"@, pairs, k) is None
        },
{
    let pairs = c.diagnosis(facing@, wwan@);
    lemma_tells("diagnosis"@, pairs, pairs.len());
    assert(pairs.take(pairs.len() as int) =~= pairs);
    reveal_strlit("event");
    reveal_strlit("video_forward");
    reveal_strlit("video_format");
    reveal_strlit("wwan");
    assert("event"@.len() == 5 && "video_forward"@.len() == 13 && "video_format"@.len() == 12
        && "wwan"@.len() == 4);
    let e = Seq::<(Seq<char>, Seq<char>)>::empty();
    assert(pairs.drop_last() =~= seq![pairs[0], pairs[1]]);
    assert(pairs.drop_last().drop_last() =~= seq![pairs[0]]);
    assert(pairs.drop_last().drop_last().drop_last() =~= e);
    reveal_with_fuel(value_for, 4);
}

/// An answer of 200 is a success; any other is a failure with its status, and none a failure with
/// the reason.
pub proof fn law_report_outcomes(
    event: &str,
    answer: Result<u16, String>,
    r: (Option<String>, Result<(), PushError>),
)
    requires
        call_ensures(push_done, (event, answer), r),
    ensures
        r.1 is Ok <==> answer == Ok::<u16, String>(200u16),
        r.0 is None <==> r.1 is Ok,
        answer matches Ok(code) ==> code != 200 ==> (r.1 matches Err(PushError::Status(c)) && c
            == code) && (r.0->0)@ == "HA Push got status "@ + text::dec_int(code as int)
            + " (event="@ + event@ + ")"@,
        answer matches Err(e) ==> (r.1 matches Err(PushError::Do(m)) && m@ == e@) && (r.0->0)@
            == "HA Push failed: "@ + e@,
{
}

// ---------------------------------------------------------------------------
// Own addresses
// ---------------------------------------------------------------------------

proof fn lemma_first_outside(addrs: Seq<[u8; 4]>, k: int)
    requires
        0 <= k <= addrs.len(),
        forall|i: int| 0 <= i < k ==> (#[trigger] addrs[i])@[0] == 127,
        k < addrs.len() ==> addrs[k]@[0] != 127,
    ensures
        k == addrs.len() ==> ha_push::first_outside(addrs).len() == 0,
        k < addrs.len() ==> ha_push::first_outside(addrs) == forms::dotted(addrs[k]@),
    decreases k,
{
    reveal_strlit("");
    if k > 0 {
        assert(addrs[0]@[0] == 127);
        let rest = addrs.skip(1);
        assert forall|i: int| 0 <= i < k - 1 implies (#[trigger] rest[i])@[0] == 127 by {
            assert(rest[i] == addrs[i + 1]);
        }
        lemma_first_outside(rest, k - 1);
    } else if addrs.len() > 0 {
        forms::lemma_dotted(addrs[0]@);
    }
}

/// The own address is the first of an interface that is not a loopback address; where there is
/// none, or no interface is named, there is no own address.
pub proof fn law_own_address(iface: &str, addrs: &[[u8; 4]], k: int, a: String, b: String)
    requires
        call_ensures(pick_non_loopback_ipv4, (addrs,), a),
        call_ensures(lookup_wwan, (iface, addrs), b),
        0 <= k <= addrs@.len(),
        forall|i: int| 0 <= i < k ==> (#[trigger] addrs@[i])@[0] == 127,
        k < addrs@.len() ==> addrs@[k]@[0] != 127,
    ensures
        k < addrs@.len() ==> a@ == forms::dotted(addrs@[k]@),
        k == addrs@.len() ==> a@.len() == 0,
        iface@.len() > 0 ==> b@ == a@,
        iface@.len() == 0 ==> b@.len() == 0,
{
    lemma_first_outside(addrs@, k);
    reveal_strlit("");
}

/// Towards a server the own address is the one from which it is reached; without a server there is
/// none.
pub proof fn law_facing_address(
    ha_ip: &str,
    ha_port: i64,
    local: Option<[u8; 4]>,
    out: String,
    t: Option<String>,
)
    requires
        call_ensures(discover_ha_facing_ip, (ha_ip, local), out),
        call_ensures(facing_target, (ha_ip, ha_port), t),
    ensures
        ha_ip@.len() > 0 && local is Some ==> out@ == forms::dotted((local->0)@),
        ha_ip@.len() == 0 || local is None ==> out@.len() == 0,
        t is Some <==> ha_ip@.len() > 0,
        t matches Some(x) ==> x@ == ha_ip@ + ":"@ + text::dec_int(ha_port as int),
{
    reveal_strlit("");
    if local is Some {
        forms::lemma_dotted((local->0)@);
    }
}

/// The name of an interface goes to the system byte by byte, with zero bytes behind it; a name of
/// more than 15 bytes, or with a zero byte in it, does not.
pub proof fn law_interface_names(iface: &str, r: Option<[u8; 16]>)
    requires
        call_ensures(iface_name_bytes, (iface,), r),
    ensures
        ({
            let b = encode_utf8(iface@);
            &&& r is None <==> b.len() > 15 || exists|i: int| 0 <= i < b.len() && b[i] == 0
            &&& r matches Some(n) ==> forall|i: int|
                0 <= i < 16 ==> #[trigger] n@[i] == if i < b.len() {
                    b[i]
                } else {
                    0
                }
        }),
{
}

} // verus!
