//! The control interface: what every endpoint has in common.

use std::sync::Arc;
use vstd::prelude::*;
use vstd::slice::{slice_subrange, slice_to_vec};
use vstd::string::*;
use vstd::utf8::*;

use crate::codec::result;
use crate::config::Config;
use crate::httpx::header;
use crate::httpx::json;
use crate::httpx::json::{encode_struct, JsonOptions, JsonValue};
use crate::httpx::{Handler, Reply, Request, RequestView, ResponseWriter, METHOD_POST,
    STATUS_METHOD_NOT_ALLOWED, STATUS_OK};
use crate::text;
use crate::text::{chars_eq_no_case, chars_of, find_char, push_dec, str_eq, trim_chars};

pub mod endpoints;
pub mod fields;
pub mod routes;
pub mod scan;
pub mod syntax;
pub mod video;
pub mod written;

verus! {

pub const STATUS_CONFLICT: u16 = 409;

pub const STATUS_UNSUPPORTED_MEDIA: u16 = 415;

pub const STATUS_SERVICE_UNAVAILABLE: u16 = 503;

pub const STATUS_GATEWAY_TIMEOUT: u16 = 504;

/// No more than this is read of a JSON body.
pub const MAX_JSON_BODY_BYTES: usize = 1048576;

// ---------------------------------------------------------------------------
// JSON answers
// ---------------------------------------------------------------------------

/// An answer with a JSON body, or with none.
pub open spec fn json_reply(before: Reply, status: u16, body: Option<Seq<char>>) -> Reply {
    let typed = before.with_field("Content-Type"@, "application/json"@);
    match body {
        None => typed.with_field("Content-Length"@, "0"@).begun(status),
        Some(t) => typed.with_field(
            "Content-Length"@,
            text::dec(encode_utf8(t).len()),
        ).begun(status).written(encode_utf8(t)),
    }
}

/// An answer that says what was wrong.
pub open spec fn error_reply(before: Reply, status: u16, msg: Seq<char>) -> Reply {
    json_reply(
        before,
        status,
        Some(json::object_of(seq![("error"@, json::string_text(msg, true))], true)),
    )
}

/// An answer with a result code.
pub open spec fn result_reply(before: Reply, status: u16, code: i32) -> Reply {
    json_reply(
        before,
        status,
        Some(json::object_of(seq![("result"@, text::dec_int(code as int))], true)),
    )
}

/// Answers with a JSON record, or without a body.
pub fn write_json<W: ResponseWriter>(w: &mut W, status: u16, body: Option<&[(&str, JsonValue)]>)
    ensures
        final(w).reply() == json_reply(
            old(w).reply(),
            status,
            match body {
                Some(fields) => Some(json::object_of(json::record_pairs(fields@, true), true)),
                None => None,
            },
        ),
{
    w.set_header("Content-Type", "application/json");
    match body {
        None => {
            w.set_header("Content-Length", "0");
            w.write_header(status);
        },
        Some(fields) => {
            proof {
                json::lemma_record(fields@, true);
            }
            let buf = encode_struct(fields, JsonOptions::marshal());
            let mut len = String::new();
            push_dec(&mut len, buf.len() as u64);
            assert(len@ =~= text::dec(buf@.len()));
            w.set_header("Content-Length", len.as_str());
            w.write_header(status);
            w.write(buf.as_slice());
        },
    }
}

/// Answers with `{"error":"<msg>"}`.
pub fn error_json<W: ResponseWriter>(w: &mut W, status: u16, msg: &str)
    ensures
        final(w).reply() == error_reply(old(w).reply(), status, msg@),
{
    let fields = [("error", JsonValue::String(msg.to_owned()))];
    assert(json::record_pairs(fields@, true) =~= seq![("error"@, json::string_text(msg@, true))]);
    write_json(w, status, Some(fields.as_slice()));
}

/// Answers with `{"result":<code>}`.
pub fn result_json<W: ResponseWriter>(w: &mut W, status: u16, code: i32)
    ensures
        final(w).reply() == result_reply(old(w).reply(), status, code),
{
    let fields = [("result", JsonValue::Number(code as i64))];
    assert(json::record_pairs(fields@, true) =~= seq![("result"@, text::dec_int(code as int))]);
    write_json(w, status, Some(fields.as_slice()));
}

// ---------------------------------------------------------------------------
// JSON bodies
// ---------------------------------------------------------------------------

/// As much of a body as is read.
pub open spec fn body_read(body: Seq<u8>) -> Seq<u8> {
    if body.len() <= MAX_JSON_BODY_BYTES {
        body
    } else {
        body.take(MAX_JSON_BODY_BYTES as int)
    }
}

/// What is wrong with a body that may be empty.
pub open spec fn json_body_fault(body: Seq<u8>) -> Option<Seq<char>> {
    if body_read(body).len() == 0 {
        None
    } else {
        syntax::body_fault(body_read(body))
    }
}

/// The bytes of a body, without a look at them.
pub fn read_json_body(body: &[u8]) -> (out: Vec<u8>)
    ensures
        out@ == body_read(body@),
{
    if body.len() <= MAX_JSON_BODY_BYTES {
        slice_to_vec(body)
    } else {
        let head = slice_subrange(body, 0, MAX_JSON_BODY_BYTES);
        assert(head@ =~= body@.take(MAX_JSON_BODY_BYTES as int));
        slice_to_vec(head)
    }
}

/// The bytes of a body that is empty or valid JSON.
pub fn parse_json_body(body: &[u8]) -> (r: Result<Vec<u8>, String>)
    ensures
        match r {
            Ok(raw) => json_body_fault(body@) is None && raw@ == body_read(body@),
            Err(m) => json_body_fault(body@) == Some(m@),
        },
{
    let raw = read_json_body(body);
    if raw.len() == 0 {
        return Ok(raw);
    }
    match syntax::validate_json_syntax(raw.as_slice()) {
        Ok(_) => Ok(raw),
        Err(m) => Err(m),
    }
}

// ---------------------------------------------------------------------------
// Guards
// ---------------------------------------------------------------------------

/// The answer to a request by another method than the one allowed.
pub open spec fn method_refused(before: Reply, method: Seq<char>, allowed: Seq<char>) -> Reply {
    error_reply(
        before.with_field("Allow"@, allowed),
        STATUS_METHOD_NOT_ALLOWED,
        "method "@ + method + " not allowed; use "@ + allowed,
    )
}

/// The answer of the guard of the method, where it does not let the request pass.
pub open spec fn method_gate(allowed: Seq<char>, r: RequestView, before: Reply) -> Option<Reply> {
    if r.method == allowed {
        None
    } else {
        Some(method_refused(before, r.method, allowed))
    }
}

/// Whether a media type is `application/json`, with or without parameters.
pub open spec fn is_json_type(ct: Seq<char>) -> bool {
    let media = match text::find(ct, ';') {
        Some(i) => ct.take(i),
        None => ct,
    };
    ct.len() > 0 && text::eq_no_case(text::trim(media), "application/json"@)
}

/// The answer of the guard of the media type, where it does not let the request pass.
pub open spec fn json_gate(r: RequestView, before: Reply) -> Option<Reply> {
    if header::field(r.header, "Content-Type"@) matches Some(ct) && is_json_type(ct) {
        None
    } else {
        Some(
            error_reply(
                before,
                STATUS_UNSUPPORTED_MEDIA,
                "Content-Type must be application/json"@,
            ),
        )
    }
}

/// The answer of the guard of the stations, where it does not let the request pass.
pub open spec fn stations_gate(stations: nat, before: Reply) -> Option<Reply> {
    if stations > 0 {
        None
    } else {
        Some(result_reply(before, STATUS_OK, result::NO_CONFIG))
    }
}

/// The answer of the first of two guards that does not let the request pass.
pub open spec fn either_gate(a: Option<Reply>, b: Option<Reply>) -> Option<Reply> {
    if a is Some {
        a
    } else {
        b
    }
}

/// The guards of control endpoints: method and media type.
pub open spec fn control_gate(r: RequestView, before: Reply) -> Option<Reply> {
    either_gate(method_gate(METHOD_POST@, r, before), json_gate(r, before))
}

/// The guards of business endpoints: those of control endpoints, and that of the stations.
pub open spec fn business_gate(stations: nat, r: RequestView, before: Reply) -> Option<Reply> {
    either_gate(control_gate(r, before), stations_gate(stations, before))
}

/// What a guard did: it let the request pass, or answered.
pub open spec fn gated(gate: Option<Reply>, passed: bool, before: Reply, after: Reply) -> bool {
    match gate {
        None => passed && after == before,
        Some(reply) => !passed && after == reply,
    }
}

/// Lets only requests by one method pass.
pub struct MethodGuard<H> {
    pub allowed: String,
    pub inner: H,
}

/// Lets only requests with a JSON body pass.
pub struct RequireJsonContentType<H> {
    pub inner: H,
}

/// Lets requests pass only where stations are configured.
pub struct RequireStationsConfigured<H> {
    pub cfg: Arc<Config>,
    pub inner: H,
}

/// Checks the method.
pub fn admit_method<W: ResponseWriter>(allowed: &str, w: &mut W, r: &Request) -> (passed: bool)
    ensures
        gated(
            method_gate(allowed@, r@, old(w).reply()),
            passed,
            old(w).reply(),
            final(w).reply(),
        ),
{
    if str_eq(r.method.as_str(), allowed) {
        return true;
    }
    w.set_header("Allow", allowed);
    let mut m = "method ".to_owned();
    m.append(r.method.as_str());
    m.append(" not allowed; use ");
    m.append(allowed);
    error_json(w, STATUS_METHOD_NOT_ALLOWED, m.as_str());
    false
}

/// Whether a media type is `application/json`, with or without parameters.
pub fn is_json_media_type(ct: &str) -> (r: bool)
    ensures
        r == is_json_type(ct@),
{
    if ct.is_empty() {
        return false;
    }
    let cs = chars_of(ct);
    let media = match find_char(cs.as_slice(), ';') {
        Some(i) => slice_subrange(cs.as_slice(), 0, i),
        None => cs.as_slice(),
    };
    assert(media@ =~= match text::find(ct@, ';') {
        Some(i) => ct@.take(i),
        None => ct@,
    });
    chars_eq_no_case(trim_chars(media), "application/json")
}

/// Checks the media type.
pub fn admit_json<W: ResponseWriter>(w: &mut W, r: &Request) -> (passed: bool)
    ensures
        gated(json_gate(r@, old(w).reply()), passed, old(w).reply(), final(w).reply()),
{
    match r.header.get("Content-Type") {
        Some(ct) => if is_json_media_type(ct) {
            return true;
        },
        None => {},
    }
    error_json(w, STATUS_UNSUPPORTED_MEDIA, "Content-Type must be application/json");
    false
}

/// Checks that there are stations.
pub fn admit_stations<W: ResponseWriter>(stations: usize, w: &mut W) -> (passed: bool)
    ensures
        gated(
            stations_gate(stations as nat, old(w).reply()),
            passed,
            old(w).reply(),
            final(w).reply(),
        ),
{
    if stations > 0 {
        return true;
    }
    result_json(w, STATUS_OK, result::NO_CONFIG);
    false
}

/// Checks a request to a control endpoint.
pub fn admit_control<W: ResponseWriter>(w: &mut W, r: &Request) -> (passed: bool)
    ensures
        gated(control_gate(r@, old(w).reply()), passed, old(w).reply(), final(w).reply()),
{
    admit_method(METHOD_POST, w, r) && admit_json(w, r)
}

/// Checks a request to a business endpoint.
pub fn admit_business<W: ResponseWriter>(stations: usize, w: &mut W, r: &Request) -> (passed: bool)
    ensures
        gated(
            business_gate(stations as nat, r@, old(w).reply()),
            passed,
            old(w).reply(),
            final(w).reply(),
        ),
{
    admit_control(w, r) && admit_stations(stations, w)
}

/// Guards a handler by the method.
pub fn method_guard<H: Handler>(allowed: &str, inner: H) -> (g: MethodGuard<H>)
    ensures
        g.allowed@ == allowed@,
        g.inner == inner,
{
    MethodGuard { allowed: allowed.to_owned(), inner }
}

/// Guards a handler of `POST` requests.
pub fn method_guard_post<H: Handler>(inner: H) -> (g: MethodGuard<H>)
    ensures
        g.allowed@ == METHOD_POST@,
        g.inner == inner,
{
    method_guard(METHOD_POST, inner)
}

/// Guards a handler by the media type.
pub fn require_json_content_type<H: Handler>(inner: H) -> (g: RequireJsonContentType<H>)
    ensures
        g.inner == inner,
{
    RequireJsonContentType { inner }
}

/// Guards a handler by the configured stations.
pub fn require_stations_configured<H: Handler>(cfg: Arc<Config>, inner: H) -> (g:
    RequireStationsConfigured<H>)
    ensures
        g.cfg == cfg,
        g.inner == inner,
{
    RequireStationsConfigured { cfg, inner }
}

/// The guards of a business endpoint, from the outside in: method, media type, stations.
pub fn chain_business_post<H: Handler>(cfg: Arc<Config>, inner: H) -> (g: MethodGuard<
    RequireJsonContentType<RequireStationsConfigured<H>>,
>)
    ensures
        g.allowed@ == METHOD_POST@,
        g.inner.inner.cfg == cfg,
        g.inner.inner.inner == inner,
{
    method_guard_post(require_json_content_type(require_stations_configured(cfg, inner)))
}

/// The guards of a control endpoint, from the outside in: method, media type.
pub fn chain_control_post<H: Handler>(inner: H) -> (g: MethodGuard<RequireJsonContentType<H>>)
    ensures
        g.allowed@ == METHOD_POST@,
        g.inner.inner == inner,
{
    method_guard_post(require_json_content_type(inner))
}

impl<H: Handler> Handler for MethodGuard<H> {
    open spec fn answers(&self, r: RequestView, before: Reply, after: Reply) -> bool {
        match method_gate(self.allowed@, r, before) {
            Some(reply) => after == reply,
            None => self.inner.answers(r, before, after),
        }
    }

    fn serve_http<W: ResponseWriter>(&self, w: &mut W, r: &Request) {
        if admit_method(self.allowed.as_str(), w, r) {
            self.inner.serve_http(w, r);
        }
    }
}

impl<H: Handler> Handler for RequireJsonContentType<H> {
    open spec fn answers(&self, r: RequestView, before: Reply, after: Reply) -> bool {
        match json_gate(r, before) {
            Some(reply) => after == reply,
            None => self.inner.answers(r, before, after),
        }
    }

    fn serve_http<W: ResponseWriter>(&self, w: &mut W, r: &Request) {
        if admit_json(w, r) {
            self.inner.serve_http(w, r);
        }
    }
}

impl<H: Handler> Handler for RequireStationsConfigured<H> {
    open spec fn answers(&self, r: RequestView, before: Reply, after: Reply) -> bool {
        match stations_gate(self.cfg@.stations.len(), before) {
            Some(reply) => after == reply,
            None => self.inner.answers(r, before, after),
        }
    }

    fn serve_http<W: ResponseWriter>(&self, w: &mut W, r: &Request) {
        if admit_stations(self.cfg.stations.len(), w) {
            self.inner.serve_http(w, r);
        }
    }
}

/// The chain of guards of a business endpoint answers as its three guards one after the
/// other do, and hands on what they let pass.
pub proof fn law_business_chain<H: Handler>(
    g: MethodGuard<RequireJsonContentType<RequireStationsConfigured<H>>>,
    r: RequestView,
    before: Reply,
    after: Reply,
)
    requires
        g.allowed@ == METHOD_POST@,
    ensures
        g.answers(r, before, after) <==> match business_gate(
            g.inner.inner.cfg@.stations.len(),
            r,
            before,
        ) {
            Some(reply) => after == reply,
            None => g.inner.inner.inner.answers(r, before, after),
        },
{
}

// ---------------------------------------------------------------------------
// Flags
// ---------------------------------------------------------------------------

/// The two flags that can be switched at run time.
#[derive(Debug, Clone, Copy, PartialEq, Eq, Structural)]
pub struct AutomationState {
    pub auto_unlock: bool,
    pub auto_hangup: bool,
}

impl AutomationState {
    pub fn new(auto_unlock: bool, auto_hangup: bool) -> (s: Self)
        ensures
            s == (AutomationState { auto_unlock, auto_hangup }),
    {
        AutomationState { auto_unlock, auto_hangup }
    }

    pub fn load_auto_unlock(&self) -> (on: bool)
        ensures
            on == self.auto_unlock,
    {
        self.auto_unlock
    }

    pub fn load_auto_hangup(&self) -> (on: bool)
        ensures
            on == self.auto_hangup,
    {
        self.auto_hangup
    }

    pub fn store_auto_unlock(&mut self, on: bool)
        ensures
            *final(self) == (AutomationState { auto_unlock: on, ..*old(self) }),
    {
        self.auto_unlock = on;
    }

    pub fn store_auto_hangup(&mut self, on: bool)
        ensures
            *final(self) == (AutomationState { auto_hangup: on, ..*old(self) }),
    {
        self.auto_hangup = on;
    }
}

impl Default for AutomationState {
    fn default() -> (s: Self)
        ensures
            !s.auto_unlock && !s.auto_hangup,
    {
        AutomationState { auto_unlock: false, auto_hangup: false }
    }
}

} // verus!
