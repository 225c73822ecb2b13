//! Reporting events to Home Assistant.

use vstd::prelude::*;
use vstd::string::*;
use vstd::utf8::*;

use crate::codec;
use crate::codec::push_ip;
use crate::config;
use crate::config::Config;
use crate::control::endpoints;
use crate::httpx::client::{new_request, Client, ClientRequest};
use crate::httpx::header;
use crate::httpx::json;
use crate::httpx::json::{encode_map, JsonMap, JsonOptions, JsonValue};
use crate::httpx::{METHOD_POST, STATUS_OK};
use crate::text;
use crate::text::{chars_of, find_char, push_dec_int, utf8_lossy};

verus! {

// ---------------------------------------------------------------------------
// Errors
// ---------------------------------------------------------------------------

/// The address of the API is not configured, so that nothing is reported.
#[derive(Debug, Clone, Copy, PartialEq, Eq)]
pub struct NotConfiguredError;

impl NotConfiguredError {
    /// The text shown for the error.
    pub fn message(&self) -> (out: String)
        ensures
            out@ == "hapush: HA api not configured (handshake pending)"@,
    {
        "hapush: HA api not configured (handshake pending)".to_owned()
    }
}

/// Why an event was not reported.
#[derive(Debug)]
pub enum PushError {
    NotConfigured(NotConfiguredError),
    /// The request could not be made.
    Request(String),
    /// The request could not be sent, or nothing came back.
    Do(String),
    /// The answer had another status than 200.
    Status(u16),
}

impl PushError {
    /// The text shown for the error.
    pub open spec fn text(&self) -> Seq<char> {
        match self {
            PushError::NotConfigured(_) => "hapush: HA api not configured (handshake pending)"@,
            PushError::Request(e) => "hapush: build request: "@ + e@,
            PushError::Do(e) => "hapush: do: "@ + e@,
            PushError::Status(code) => "hapush: status "@ + text::dec_int(*code as int),
        }
    }

    /// The text shown for the error.
    pub fn message(&self) -> (out: String)
        ensures
            out@ == self.text(),
    {
        match self {
            PushError::NotConfigured(e) => e.message(),
            PushError::Request(e) => {
                let mut out = "hapush: build request: ".to_owned();
                out.append(e.as_str());
                out
            },
            PushError::Do(e) => {
                let mut out = "hapush: do: ".to_owned();
                out.append(e.as_str());
                out
            },
            PushError::Status(code) => {
                let mut out = "hapush: status ".to_owned();
                push_dec_int(&mut out, *code as i64);
                out
            },
        }
    }
}

// ---------------------------------------------------------------------------
// Addresses
// ---------------------------------------------------------------------------

/// The URL of `api` on `host` and `port`; an IPv6 host stands in brackets.
pub open spec fn url_text(host: Seq<char>, port: int, api: Seq<char>) -> Seq<char> {
    let h = if text::find(host, ':') is Some {
        "["@ + host + "]"@
    } else {
        host
    };
    "http://"@ + h + ":"@ + text::dec_int(port) + api
}

/// The URL of `api` on `host` and `port`.
pub fn build_url(host: &str, port: i64, api: &str) -> (out: String)
    ensures
        out@ == url_text(host@, port as int, api@),
{
    let mut out = "http://".to_owned();
    if find_char(chars_of(host).as_slice(), ':').is_some() {
        out.append("[");
        out.append(host);
        out.append("]");
    } else {
        out.append(host);
    }
    out.append(":");
    push_dec_int(&mut out, port);
    out.append(api);
    assert(out@ =~= url_text(host@, port as int, api@));
    out
}

/// The first address that is not a loopback address, or nothing.
pub open spec fn first_outside(addrs: Seq<[u8; 4]>) -> Seq<char>
    decreases addrs.len(),
{
    if addrs.len() == 0 {
        ""@
    } else if addrs[0]@[0] != 127 {
        codec::ip_text(addrs[0]@)
    } else {
        first_outside(addrs.skip(1))
    }
}

/// The first address that is not a loopback address, or nothing.
pub fn pick_non_loopback_ipv4(addrs: &[[u8; 4]]) -> (out: String)
    ensures
        out@ == first_outside(addrs@),
{
    let mut i: usize = 0;
    assert(addrs@.skip(0) =~= addrs@);
    while i < addrs.len()
        invariant
            i <= addrs@.len(),
            first_outside(addrs@) == first_outside(addrs@.skip(i as int)),
        decreases addrs@.len() - i,
    {
        let ghost rest = addrs@.skip(i as int);
        let a: [u8; 4] = addrs[i];
        assert(rest[0] == a);
        if a[0] != 127 {
            let mut out = String::new();
            push_ip(&mut out, a);
            assert(out@ =~= codec::ip_text(a@));
            return out;
        }
        assert(rest.skip(1) =~= addrs@.skip(i + 1));
        i = i + 1;
    }
    "".to_owned()
}

/// The address of the interface `iface`, which has the addresses `addrs`; nothing where no
/// interface is named.
pub fn lookup_wwan(iface: &str, addrs: &[[u8; 4]]) -> (out: String)
    ensures
        out@ == if iface@.len() == 0 {
            ""@
        } else {
            first_outside(addrs@)
        },
{
    if iface.unicode_len() == 0 {
        return "".to_owned();
    }
    pick_non_loopback_ipv4(addrs)
}

/// The name of an interface as the system takes it: up to 15 bytes without a zero byte, filled up
/// with zero bytes.
pub open spec fn iface_name(iface: Seq<u8>) -> Option<Seq<u8>> {
    if iface.len() > 15 || (exists|i: int| 0 <= i < iface.len() && iface[i] == 0) {
        None
    } else {
        Some(iface + Seq::new((16 - iface.len()) as nat, |i: int| 0u8))
    }
}

/// The name of an interface as the system takes it, where it can take it.
pub fn iface_name_bytes(iface: &str) -> (r: Option<[u8; 16]>)
    ensures
        match r {
            Some(b) => iface_name(iface.spec_bytes()) == Some(b@),
            None => iface_name(iface.spec_bytes()) is None,
        },
{
    let bytes = iface.as_bytes();
    if bytes.len() > 15 {
        return None;
    }
    let mut out: [u8; 16] = [0u8; 16];
    let mut i: usize = 0;
    while i < bytes.len()
        invariant
            i <= bytes@.len() <= 15,
            bytes@ == iface.spec_bytes(),
            out@.len() == 16,
            forall|j: int| 0 <= j < i ==> #[trigger] bytes@[j] != 0,
            forall|j: int| 0 <= j < 16 ==> #[trigger] out@[j] == if j < i {
                bytes@[j]
            } else {
                0
            },
        decreases bytes@.len() - i,
    {
        if bytes[i] == 0 {
            return None;
        }
        out[i] = bytes[i];
        i = i + 1;
    }
    assert(out@ =~= iface_name(iface.spec_bytes())->0);
    Some(out)
}

/// Where a datagram socket is connected to in order to learn the own address towards `ha_ip`.
pub fn facing_target(ha_ip: &str, ha_port: i64) -> (r: Option<String>)
    ensures
        match r {
            Some(t) => ha_ip@.len() > 0 && t@ == ha_ip@ + ":"@ + text::dec_int(ha_port as int),
            None => ha_ip@.len() == 0,
        },
{
    if ha_ip.unicode_len() == 0 {
        return None;
    }
    let mut t = ha_ip.to_owned();
    t.append(":");
    push_dec_int(&mut t, ha_port);
    Some(t)
}

/// The own address towards `ha_ip`, where connecting to it gave the IPv4 address `local`; nothing
/// where that failed or no address is configured.
pub fn discover_ha_facing_ip(ha_ip: &str, local: Option<[u8; 4]>) -> (out: String)
    ensures
        out@ == (match local {
            Some(a) if ha_ip@.len() > 0 => codec::ip_text(a@),
            _ => ""@,
        }),
{
    if ha_ip.unicode_len() == 0 {
        return "".to_owned();
    }
    match local {
        Some(a) => {
            let mut out = String::new();
            push_ip(&mut out, a);
            assert(out@ =~= codec::ip_text(a@));
            out
        },
        None => "".to_owned(),
    }
}

// ---------------------------------------------------------------------------
// Events
// ---------------------------------------------------------------------------

/// The members of the body that reports `event` with the first `n` of `fields`, by key and
/// written value. A later field takes the place of an earlier one of the same key.
pub open spec fn body_pairs(event: Seq<char>, fields: Seq<(Seq<char>, Seq<char>)>, n: nat) -> Seq<
    (Seq<char>, Seq<char>),
>
    decreases n,
{
    if n == 0 {
        seq![("event"@, json::string_text(event, true))]
    } else {
        let f = fields[n - 1];
        json::put_pair(
            body_pairs(event, fields, (n - 1) as nat),
            f.0,
            json::string_text(f.1, true),
        )
    }
}

/// The body that reports `event` with `fields`.
pub open spec fn body_text(event: Seq<char>, fields: Seq<(Seq<char>, Seq<char>)>) -> Seq<char> {
    json::object_of(body_pairs(event, fields, fields.len()), true)
}

/// The request that reports an event with the body `body`.
pub open spec fn is_report(req: ClientRequest, hass: config::HassView, body: Seq<char>) -> bool {
    &&& req.method@ == METHOD_POST@
    &&& req.url@ == url_text(hass.ipaddr, hass.port, hass.api)
    &&& req.header@ == Map::<Seq<char>, Seq<Seq<char>>>::empty().insert(
        header::canonical("Content-Type"@),
        seq!["application/json"@],
    ).insert(header::canonical("Authorization"@), seq!["Bearer "@ + hass.token])
    &&& req.body@ == encode_utf8(body)
}

/// Reports events.
#[derive(Debug)]
pub struct HaPushClient {
    pub cfg: Config,
    pub http: Client,
}

impl HaPushClient {
    /// Reports to the address in `cfg` and waits at most five seconds for an answer.
    pub fn new(cfg: Config) -> (c: Self)
        ensures
            c.cfg == cfg,
            c.http.timeout == Some(5_000_000_000u64),
    {
        HaPushClient { cfg, http: Client { timeout: Some(5_000_000_000) } }
    }

    /// Whether `r` is what comes of reporting an event with the body `body`, with a line for the
    /// log: the request to send, or that nothing is configured.
    pub open spec fn reports(
        &self,
        body: Seq<char>,
        r: (String, Result<ClientRequest, PushError>),
    ) -> bool {
        if self.cfg@.hass.api.len() == 0 {
            &&& r.0@ == "HA Push skipped: api not configured"@
            &&& r.1 matches Err(PushError::NotConfigured(_))
        } else {
            &&& r.0@ == "HA Push: "@ + body
            &&& r.1 matches Ok(req)
            &&& is_report(req, self.cfg@.hass, body)
        }
    }

    /// Makes the request that reports `event` with `fields`, and a line for the log.
    pub fn push(&self, event: &str, fields: &[(String, String)]) -> (r: (
        String,
        Result<ClientRequest, PushError>,
    ))
        ensures
            self.reports(body_text(event@, endpoints::pair_views(fields@)), r),
    {
        if self.cfg.hass.api.as_str().unicode_len() == 0 {
            return (
                "HA Push skipped: api not configured".to_owned(),
                Err(PushError::NotConfigured(NotConfiguredError)),
            );
        }
        let ghost pairs = endpoints::pair_views(fields@);
        let mut body = JsonMap::new();
        let ghost empty = json::member_pairs(body.members(), true);
        body.insert("event".to_owned(), JsonValue::String(event.to_owned()));
        assert(json::member_pairs(body.members(), true) =~= body_pairs(event@, pairs, 0)) by {
            assert(empty.len() == 0);
        }
        let mut i: usize = 0;
        while i < fields.len()
            invariant
                i <= fields@.len(),
                pairs == endpoints::pair_views(fields@),
                json::member_pairs(body.members(), true) == body_pairs(event@, pairs, i as nat),
            decreases fields@.len() - i,
        {
            body.insert(fields[i].0.clone(), JsonValue::String(fields[i].1.clone()));
            i = i + 1;
            assert(json::member_pairs(body.members(), true) == body_pairs(event@, pairs, i as nat));
        }
        let ghost written = body_text(event@, pairs);
        let body_bytes = encode_map(&body, JsonOptions::marshal());
        proof {
            json::lemma_object(body.members(), true);
            assert(body_bytes@ == encode_utf8(written));
            encode_utf8_valid_utf8(written);
            encode_utf8_decode_utf8(written);
        }
        let mut log = "HA Push: ".to_owned();
        log.append(utf8_lossy(body_bytes.as_slice()).as_str());
        let target = build_url(
            self.cfg.hass.ipaddr.as_str(),
            self.cfg.hass.port,
            self.cfg.hass.api.as_str(),
        );
        proof {
            assert(target@.take("http://"@.len() as int) =~= "http://"@);
        }
        let made = new_request(METHOD_POST, target.as_str(), Some(body_bytes.as_slice()));
        match made {
            Ok(mut req) => {
                req.set_header("Content-Type", "application/json");
                let mut auth = "Bearer ".to_owned();
                auth.append(self.cfg.hass.token.as_str());
                req.set_header("Authorization", auth.as_str());
                (log, Ok(req))
            },
            Err(e) => (log, Err(PushError::Request(e))),
        }
    }

    /// The report about the program itself: whether and how video is forwarded, and the own
    /// address `facing`, or else that of the interface, `wwan`.
    pub open spec fn diagnosis(&self, facing: Seq<char>, wwan: Seq<char>) -> Seq<
        (Seq<char>, Seq<char>),
    > {
        seq![
            ("video_forward"@, if self.cfg@.video.forward {
                "1"@
            } else {
                "0"@
            }),
            ("video_format"@, self.cfg@.video.format),
            ("wwan"@, if facing.len() == 0 {
                wwan
            } else {
                facing
            }),
        ]
    }

    /// Makes the request that reports on the program itself.
    pub fn push_diagnosis(&self, facing: &str, wwan: &str) -> (r: (
        String,
        Result<ClientRequest, PushError>,
    ))
        ensures
            self.reports(body_text("diagnosis"@, self.diagnosis(facing@, wwan@)), r),
    {
        let forward = if self.cfg.video.forward {
            "1"
        } else {
            "0"
        };
        let own = if facing.unicode_len() == 0 {
            wwan
        } else {
            facing
        };
        let mut fields: Vec<(String, String)> = Vec::new();
        fields.push(("video_forward".to_owned(), forward.to_owned()));
        fields.push(("video_format".to_owned(), self.cfg.video.format.clone()));
        fields.push(("wwan".to_owned(), own.to_owned()));
        assert(endpoints::pair_views(fields@) =~= self.diagnosis(facing@, wwan@));
        self.push("diagnosis", fields.as_slice())
    }

    /// The own address towards Home Assistant.
    pub fn discover_ha_facing_ip(&self, local: Option<[u8; 4]>) -> (out: String)
        ensures
            out@ == (match local {
                Some(a) if self.cfg@.hass.ipaddr.len() > 0 => codec::ip_text(a@),
                _ => ""@,
            }),
    {
        discover_ha_facing_ip(self.cfg.hass.ipaddr.as_str(), local)
    }
}

/// What became of a report: the status of the answer, or why there is none. Gives the result and,
/// where it failed, a line for the log.
pub fn push_done(event: &str, answer: Result<u16, String>) -> (r: (
    Option<String>,
    Result<(), PushError>,
))
    ensures
        match answer {
            Ok(code) => if code == STATUS_OK {
                r.0 is None && r.1 is Ok
            } else {
                &&& r.0 matches Some(l)
                &&& l@ == "HA Push got status "@ + text::dec_int(code as int) + " (event="@ + event@
                    + ")"@
                &&& r.1 matches Err(PushError::Status(c))
                &&& c == code
            },
            Err(e) => {
                &&& r.0 matches Some(l)
                &&& l@ == "HA Push failed: "@ + e@
                &&& r.1 matches Err(PushError::Do(m))
                &&& m@ == e@
            },
        },
{
    match answer {
        Ok(code) => {
            if code == STATUS_OK {
                return (None, Ok(()));
            }
            let mut log = "HA Push got status ".to_owned();
            push_dec_int(&mut log, code as i64);
            log.append(" (event=");
            log.append(event);
            log.append(")");
            (Some(log), Err(PushError::Status(code)))
        },
        Err(e) => {
            let mut log = "HA Push failed: ".to_owned();
            log.append(e.as_str());
            (Some(log), Err(PushError::Do(e)))
        },
    }
}

/// The members of a report's body stand in order of their keys, each key once.
pub proof fn law_body_sorted(event: Seq<char>, fields: Seq<(Seq<char>, Seq<char>)>, n: nat)
    requires
        n <= fields.len(),
    ensures
        forall|i: int, j: int|
            0 <= i < j < body_pairs(event, fields, n).len() ==> #[trigger] text::text_before(
                body_pairs(event, fields, n)[i].0,
                body_pairs(event, fields, n)[j].0,
            ),
    decreases n,
{
    if n > 0 {
        law_body_sorted(event, fields, (n - 1) as nat);
        let f = fields[n - 1];
        json::lemma_put_ascends(
            body_pairs(event, fields, (n - 1) as nat),
            f.0,
            json::string_text(f.1, true),
        );
    }
}

} // verus!
