//! The endpoints for flags, description and unlocking.

use vstd::prelude::*;
use vstd::slice::slice_subrange;
use vstd::string::*;
use vstd::utf8::*;

use super::fields;
use super::fields::{parse_auto_toggle_body, parse_unlock_body};
use super::{error_json, parse_json_body, result_json, write_json, AutomationState,
    STATUS_SERVICE_UNAVAILABLE};
use crate::codec;
use crate::codec::{encode_bcd, parse_uri, result, BcdError, UriError};
use crate::httpx::json;
use crate::httpx::json::JsonValue;
use crate::httpx::{Reply, Request, ResponseWriter, STATUS_BAD_REQUEST, STATUS_OK};
use crate::info::{build, render_json};
use crate::sender;
use crate::sender::{CallView, Sender, SenderError};
use crate::text;
use crate::text::{chars_of, debug_char_string, debug_string, dec_string, find_char, push_dec,
    rfind_char, string_of};
use crate::unlock::{UnlockOutcome, WireKind};

verus! {

// ---------------------------------------------------------------------------
// Flags
// ---------------------------------------------------------------------------

/// The flag that a request asks for.
pub open spec fn requested_flag(body: Seq<u8>) -> Result<bool, Seq<char>> {
    match super::json_body_fault(body) {
        Some(m) => Err(m),
        None => fields::toggle_value(super::body_read(body)),
    }
}

/// Answer with a result of 0 and one flag.
pub open spec fn flag_reply(before: Reply, name: Seq<char>, on: bool) -> Reply {
    super::json_reply(
        before,
        STATUS_OK,
        Some(
            json::object_of(
                seq![("result"@, text::dec_int(0)), (name, crate::info::flag_text(on))],
                true,
            ),
        ),
    )
}

/// Reads the flag that a request asks for.
pub fn parse_auto_toggle_request(r: &Request) -> (on: Result<bool, String>)
    ensures
        match on {
            Ok(b) => requested_flag(r@.body) == Ok::<_, Seq<char>>(b),
            Err(m) => requested_flag(r@.body) == Err::<bool, _>(m@),
        },
{
    match parse_json_body(r.body.as_slice()) {
        Ok(raw) => parse_auto_toggle_body(raw.as_slice()),
        Err(m) => Err(m),
    }
}

fn answer_flag<W: ResponseWriter>(w: &mut W, name: &str, on: bool)
    ensures
        final(w).reply() == flag_reply(old(w).reply(), name@, on),
{
    let out = [("result", JsonValue::Number(0)), (name, JsonValue::Bool(on))];
    assert(json::record_pairs(out@, true) =~= seq![
        ("result"@, text::dec_int(0)),
        (name@, crate::info::flag_text(on)),
    ]);
    write_json(w, STATUS_OK, Some(out.as_slice()));
}

/// What switching a flag came to: whether the flags are to be saved, the flags afterwards,
/// and the answer.
pub open spec fn switched(
    automation: Option<AutomationState>,
    hangup: bool,
    body: Seq<u8>,
    before: Reply,
) -> (bool, Option<AutomationState>, Reply) {
    match requested_flag(body) {
        Err(m) => (false, automation, super::error_reply(before, STATUS_BAD_REQUEST, m)),
        Ok(on) => (
            true,
            match automation {
                Some(a) => Some(
                    if hangup {
                        AutomationState { auto_hangup: on, ..a }
                    } else {
                        AutomationState { auto_unlock: on, ..a }
                    },
                ),
                None => None,
            },
            flag_reply(
                before,
                if hangup {
                    "auto_hangup"@
                } else {
                    "auto_unlock"@
                },
                on,
            ),
        ),
    }
}

/// Switches the flag for unlocking. The result says whether the flags are to be saved.
pub fn handle_auto_unlock<W: ResponseWriter>(
    automation: &mut Option<AutomationState>,
    w: &mut W,
    r: &Request,
) -> (save: bool)
    ensures
        (save, *final(automation), final(w).reply()) == switched(
            *old(automation),
            false,
            r@.body,
            old(w).reply(),
        ),
{
    let on = match parse_auto_toggle_request(r) {
        Ok(v) => v,
        Err(m) => {
            error_json(w, STATUS_BAD_REQUEST, m.as_str());
            return false;
        },
    };
    match *automation {
        Some(a) => {
            let mut a = a;
            a.store_auto_unlock(on);
            *automation = Some(a);
        },
        None => {},
    }
    answer_flag(w, "auto_unlock", on);
    true
}

/// Switches the flag for hanging up. The result says whether the flags are to be saved.
pub fn handle_auto_hangup<W: ResponseWriter>(
    automation: &mut Option<AutomationState>,
    w: &mut W,
    r: &Request,
) -> (save: bool)
    ensures
        (save, *final(automation), final(w).reply()) == switched(
            *old(automation),
            true,
            r@.body,
            old(w).reply(),
        ),
{
    let on = match parse_auto_toggle_request(r) {
        Ok(v) => v,
        Err(m) => {
            error_json(w, STATUS_BAD_REQUEST, m.as_str());
            return false;
        },
    };
    match *automation {
        Some(a) => {
            let mut a = a;
            a.store_auto_hangup(on);
            *automation = Some(a);
        },
        None => {},
    }
    answer_flag(w, "auto_hangup", on);
    true
}

/// The answer that shows both flags.
pub open spec fn flags_reply(automation: Option<AutomationState>, before: Reply) -> Reply {
    let a = match automation {
        Some(a) => a,
        None => AutomationState { auto_unlock: false, auto_hangup: false },
    };
    super::json_reply(
        before,
        STATUS_OK,
        Some(
            json::object_of(
                seq![
                    ("result"@, text::dec_int(0)),
                    ("auto_unlock"@, crate::info::flag_text(a.auto_unlock)),
                    ("auto_hangup"@, crate::info::flag_text(a.auto_hangup)),
                ],
                true,
            ),
        ),
    )
}

/// Shows both flags.
pub fn handle_automation_get<W: ResponseWriter>(automation: &Option<AutomationState>, w: &mut W)
    ensures
        final(w).reply() == flags_reply(*automation, old(w).reply()),
{
    let (u, h) = match automation {
        Some(a) => (a.load_auto_unlock(), a.load_auto_hangup()),
        None => (false, false),
    };
    let out = [
        ("result", JsonValue::Number(0)),
        ("auto_unlock", JsonValue::Bool(u)),
        ("auto_hangup", JsonValue::Bool(h)),
    ];
    assert(json::record_pairs(out@, true) =~= seq![
        ("result"@, text::dec_int(0)),
        ("auto_unlock"@, crate::info::flag_text(u)),
        ("auto_hangup"@, crate::info::flag_text(h)),
    ]);
    write_json(w, STATUS_OK, Some(out.as_slice()));
}

// ---------------------------------------------------------------------------
// Description and playback
// ---------------------------------------------------------------------------

/// The answer that describes the daemon; its length is not given.
pub open spec fn info_reply(d: crate::info::DescView, before: Reply) -> Reply {
    before.with_field("Content-Type"@, "application/json"@).begun(STATUS_OK).written(
        encode_utf8(crate::info::info_text(d).push('\n')),
    )
}

/// Describes the daemon.
pub fn handle_info<W: ResponseWriter>(
    cfg: &crate::config::Config,
    version: &str,
    pid: u32,
    w: &mut W,
)
    ensures
        final(w).reply() == info_reply(
            crate::info::described(Some(cfg@), version@, pid, None),
            old(w).reply(),
        ),
{
    let body = render_json(&build(Some(cfg), version, pid, None));
    w.set_header("Content-Type", "application/json");
    w.write_header(STATUS_OK);
    w.write(body.as_slice());
}

/// The answer for playback, of which there is none.
pub open spec fn playback_reply(before: Reply) -> Reply {
    before.with_field("Content-Length"@, "0"@).begun(STATUS_OK)
}

/// Answers with nothing.
pub fn handle_playback<W: ResponseWriter>(w: &mut W)
    ensures
        final(w).reply() == playback_reply(old(w).reply()),
{
    w.set_header("Content-Length", "0");
    w.write_header(STATUS_OK);
}

// ---------------------------------------------------------------------------
// Addresses in requests
// ---------------------------------------------------------------------------

/// `u` up to its first `@`.
pub open spec fn before_at(u: Seq<char>) -> Seq<char> {
    match text::find(u, '@') {
        Some(i) => u.take(i),
        None => u,
    }
}

/// The host between the first `@` and the last `:` before another `@`; all of `u` where
/// there is none.
pub open spec fn host_part(u: Seq<char>) -> Seq<char> {
    match text::find(u, '@') {
        None => u,
        Some(i) => {
            let s = before_at(u.skip(i + 1));
            match text::rfind(s, ':') {
                Some(c) => s.take(c),
                None => u,
            }
        },
    }
}

/// What stands behind the last `:`.
pub open spec fn port_part(u: Seq<char>) -> Seq<char> {
    match text::rfind(u, ':') {
        Some(c) => u.skip(c + 1),
        None => Seq::empty(),
    }
}

/// The message for an address that could not be split.
pub open spec fn uri_error_text(e: UriError, u: Seq<char>) -> Seq<char> {
    match e {
        UriError::Format => "uri: malformed, want name@ip:port: "@ + text::debug_text(u),
        UriError::NameLen { got } => "uri: name must be exactly 8 characters: name="@
            + text::debug_text(before_at(u)) + " (len="@ + text::dec(got as nat) + ")"@,
        UriError::IPv4Only => "uri: only IPv4 addresses are supported: ip="@ + text::debug_text(
            host_part(u),
        ),
        UriError::Port => "uri: port must be 1-65535: port="@ + text::debug_text(port_part(u)),
    }
}

/// The message for a name that could not be packed.
pub open spec fn bcd_error_text(e: BcdError, u: Seq<char>) -> Seq<char> {
    match e {
        BcdError::Length { got } => "bcd: name must be 8 hex digits: "@ + text::debug_text(u)
            + " (len="@ + text::dec(got as nat) + ")"@,
        BcdError::Format { ch, index } => "bcd: invalid hex digit "@ + text::debug_char_text(ch)
            + " at index "@ + text::dec(index as nat) + ": "@ + text::debug_text(u),
    }
}

/// Name (packed), host and port of an address, or the message that says what is wrong.
pub open spec fn uri_bcd(u: Seq<char>) -> Result<(Seq<u8>, Seq<char>, u16), Seq<char>> {
    match codec::uri_parts(u) {
        Err(e) => Err(uri_error_text(e, u)),
        Ok((name, ip, port)) => match codec::bcd_value(encode_utf8(name)) {
            Err(e) => Err(bcd_error_text(e, u)),
            Ok(b) => Ok((b, ip, port)),
        },
    }
}

fn cut_before_at(cs: &[char]) -> (out: &[char])
    ensures
        out@ == before_at(cs@),
{
    match find_char(cs, '@') {
        Some(i) => {
            let out = slice_subrange(cs, 0, i);
            assert(out@ =~= cs@.take(i as int));
            out
        },
        None => cs,
    }
}

fn cut_host(cs: &[char]) -> (out: &[char])
    ensures
        out@ == host_part(cs@),
{
    match find_char(cs, '@') {
        None => cs,
        Some(i) => {
            let rest = slice_subrange(cs, i + 1, cs.len());
            assert(rest@ =~= cs@.skip(i + 1));
            let s = cut_before_at(rest);
            match rfind_char(s, ':') {
                Some(c) => {
                    let out = slice_subrange(s, 0, c);
                    assert(out@ =~= s@.take(c as int));
                    out
                },
                None => cs,
            }
        },
    }
}

fn debug_chars(cs: &[char]) -> (out: String)
    ensures
        out@ == text::debug_text(cs@),
{
    debug_string(string_of(cs).as_str())
}

/// The message for an address that could not be split.
pub fn format_uri_err(e: &UriError, uri: &str) -> (out: String)
    ensures
        out@ == uri_error_text(*e, uri@),
{
    let cs = chars_of(uri);
    match e {
        UriError::Format => {
            let mut out = "uri: malformed, want name@ip:port: ".to_owned();
            out.append(debug_string(uri).as_str());
            out
        },
        UriError::NameLen { got } => {
            let mut out = "uri: name must be exactly 8 characters: name=".to_owned();
            out.append(debug_chars(cut_before_at(cs.as_slice())).as_str());
            out.append(" (len=");
            push_dec(&mut out, *got as u64);
            out.append(")");
            out
        },
        UriError::IPv4Only => {
            let mut out = "uri: only IPv4 addresses are supported: ip=".to_owned();
            out.append(debug_chars(cut_host(cs.as_slice())).as_str());
            out
        },
        UriError::Port => {
            let port = match rfind_char(cs.as_slice(), ':') {
                Some(c) => {
                    let p = slice_subrange(cs.as_slice(), c + 1, cs.len());
                    assert(p@ =~= uri@.skip(c + 1));
                    string_of(p)
                },
                None => String::new(),
            };
            let mut out = "uri: port must be 1-65535: port=".to_owned();
            out.append(debug_string(port.as_str()).as_str());
            out
        },
    }
}

/// The message for a name that could not be packed.
pub fn format_bcd_err(e: &BcdError, uri: &str) -> (out: String)
    ensures
        out@ == bcd_error_text(*e, uri@),
{
    match e {
        BcdError::Length { got } => {
            let mut out = "bcd: name must be 8 hex digits: ".to_owned();
            out.append(debug_string(uri).as_str());
            out.append(" (len=");
            push_dec(&mut out, *got as u64);
            out.append(")");
            out
        },
        BcdError::Format { ch, index } => {
            let mut out = "bcd: invalid hex digit ".to_owned();
            out.append(debug_char_string(*ch).as_str());
            out.append(" at index ");
            push_dec(&mut out, *index as u64);
            out.append(": ");
            out.append(debug_string(uri).as_str());
            out
        },
    }
}

/// Splits an address and packs its name.
pub fn parse_uri_bcd(uri: &str) -> (r: Result<([u8; 4], String, u16), String>)
    ensures
        match r {
            Ok((b, ip, port)) => uri_bcd(uri@) == Ok::<_, Seq<char>>((b@, ip@, port)),
            Err(m) => uri_bcd(uri@) == Err::<(Seq<u8>, Seq<char>, u16), _>(m@),
        },
{
    match parse_uri(uri) {
        Err(e) => Err(format_uri_err(&e, uri)),
        Ok((name, ip, port)) => match encode_bcd(name.as_str()) {
            Ok(b) => Ok((b, ip, port)),
            Err(e) => Err(format_bcd_err(&e, uri)),
        },
    }
}

// ---------------------------------------------------------------------------
// Unlocking
// ---------------------------------------------------------------------------

/// An unlock to carry out.
#[derive(Debug, Clone, PartialEq, Eq)]
pub struct UnlockPlan {
    pub from: String,
    pub to: String,
    pub caller_bcd: [u8; 4],
    pub callee_bcd: [u8; 4],
    pub target_ip: String,
    pub target_port: u16,
}

/// `UnlockPlan` with its texts as sequences.
pub struct PlanView {
    pub from: Seq<char>,
    pub to: Seq<char>,
    pub caller_bcd: Seq<u8>,
    pub callee_bcd: Seq<u8>,
    pub target_ip: Seq<char>,
    pub target_port: u16,
}

impl View for UnlockPlan {
    type V = PlanView;

    open spec fn view(&self) -> PlanView {
        PlanView {
            from: self.from@,
            to: self.to@,
            caller_bcd: self.caller_bcd@,
            callee_bcd: self.callee_bcd@,
            target_ip: self.target_ip@,
            target_port: self.target_port,
        }
    }
}

/// The unlock that a body asks for: the station `to` is the caller and the target, the
/// monitor `from` the callee.
pub open spec fn unlock_plan(body: Seq<u8>) -> Result<PlanView, Seq<char>> {
    match super::json_body_fault(body) {
        Some(m) => Err(m),
        None => {
            let from = fields::text_or_empty(super::body_read(body), "from"@);
            let to = fields::text_or_empty(super::body_read(body), "to"@);
            if to.len() == 0 {
                Err("missing 'to' field"@)
            } else {
                match uri_bcd(to) {
                    Err(m) => Err("invalid 'to' URI: "@ + m),
                    Ok((caller_bcd, target_ip, target_port)) => match uri_bcd(from) {
                        Err(m) => Err("invalid 'from' URI: "@ + m),
                        Ok((callee_bcd, _, _)) => Ok(
                            PlanView {
                                from,
                                to,
                                caller_bcd,
                                callee_bcd,
                                target_ip,
                                target_port,
                            },
                        ),
                    },
                }
            }
        },
    }
}

fn prefixed(head: &str, m: &str) -> (out: String)
    ensures
        out@ == head@ + m@,
{
    let mut out = head.to_owned();
    out.append(m);
    out
}

/// Reads the unlock that a body asks for.
pub fn plan_unlock(body: &[u8]) -> (r: Result<UnlockPlan, String>)
    ensures
        match r {
            Ok(p) => unlock_plan(body@) == Ok::<_, Seq<char>>(p@),
            Err(m) => unlock_plan(body@) == Err::<PlanView, _>(m@),
        },
{
    let raw = match parse_json_body(body) {
        Ok(raw) => raw,
        Err(m) => return Err(m),
    };
    let (from, to) = match parse_unlock_body(raw.as_slice()) {
        Ok(fields) => fields,
        Err(m) => return Err(m),
    };
    if to.as_str().is_empty() {
        return Err("missing 'to' field".to_owned());
    }
    let (caller_bcd, target_ip, target_port) = match parse_uri_bcd(to.as_str()) {
        Ok(p) => p,
        Err(m) => return Err(prefixed("invalid 'to' URI: ", m.as_str())),
    };
    let (callee_bcd, _, _) = match parse_uri_bcd(from.as_str()) {
        Ok(p) => p,
        Err(m) => return Err(prefixed("invalid 'from' URI: ", m.as_str())),
    };
    Ok(UnlockPlan { from, to, caller_bcd, callee_bcd, target_ip, target_port })
}

/// An event to report: its name and its fields.
#[derive(Debug, Clone, PartialEq, Eq)]
pub struct Push {
    pub event: String,
    pub fields: Vec<(String, String)>,
}

/// `Push` with its texts as sequences.
pub struct PushView {
    pub event: Seq<char>,
    pub fields: Seq<(Seq<char>, Seq<char>)>,
}

impl View for Push {
    type V = PushView;

    open spec fn view(&self) -> PushView {
        PushView { event: self.event@, fields: pair_views(self.fields@) }
    }
}

/// Pairs of strings as pairs of sequences.
pub open spec fn pair_views(v: Seq<(String, String)>) -> Seq<(Seq<char>, Seq<char>)> {
    Seq::new(v.len(), |i: int| (v[i].0@, v[i].1@))
}

/// An optional event by its view.
pub open spec fn push_view(p: Option<Push>) -> Option<PushView> {
    match p {
        Some(p) => Some(p@),
        None => None,
    }
}

/// The event for a result code; addresses that are not known are left out.
pub open spec fn business_push(
    event: Seq<char>,
    code: i32,
    from: Seq<char>,
    to: Seq<char>,
) -> PushView {
    let f0 = seq![("result"@, text::dec_int(code as int))];
    let f1 = if from.len() == 0 {
        f0
    } else {
        f0.push(("from"@, from))
    };
    let f2 = if to.len() == 0 {
        f1
    } else {
        f1.push(("to"@, to))
    };
    PushView { event, fields: f2 }
}

/// The result code for a failed exchange; where none failed it is 0.
pub open spec fn wire_code(kind: Option<WireKind>) -> i32 {
    match kind {
        Some(WireKind::SilentFin) => result::NO_RING,
        Some(WireKind::Timeout) => result::TIMEOUT,
        None => result::OK,
        Some(WireKind::Retryable) | Some(WireKind::Other) => result::ERR,
    }
}

/// Status, result code and whether to report it, for the outcome of an unlock.
///
/// A success and an answer that was refused are results of business. So is that nobody
/// rings, which an ended ringing counts as. Any other failure is one of the station.
pub open spec fn outcome_answer(o: UnlockOutcome) -> (u16, i32, bool) {
    if o.result == result::OK {
        (STATUS_OK, result::OK, false)
    } else if o.result == result::ERR && o.wire_kind is None {
        (STATUS_OK, result::ERR, true)
    } else {
        let code = wire_code(
            if o.terminated_by_bye {
                Some(WireKind::SilentFin)
            } else {
                o.wire_kind
            },
        );
        (
            if code == result::NO_RING {
                STATUS_OK
            } else {
                STATUS_SERVICE_UNAVAILABLE
            },
            code,
            true,
        )
    }
}

/// The answer and the event for the outcome of an unlock.
pub open spec fn outcome_reply(
    o: UnlockOutcome,
    event: Seq<char>,
    from: Seq<char>,
    to: Seq<char>,
    before: Reply,
) -> (Reply, Option<PushView>) {
    let (status, code, report) = outcome_answer(o);
    (
        super::result_reply(before, status, code),
        if report {
            Some(business_push(event, code, from, to))
        } else {
            None
        },
    )
}

/// The result code for a failed exchange.
pub fn classify_wire_kind(kind: Option<WireKind>) -> (code: i32)
    ensures
        code == wire_code(kind),
{
    match kind {
        Some(WireKind::SilentFin) => result::NO_RING,
        Some(WireKind::Timeout) => result::TIMEOUT,
        None => result::OK,
        Some(WireKind::Retryable) => result::ERR,
        Some(WireKind::Other) => result::ERR,
    }
}

fn add_field(fields: &mut Vec<(String, String)>, key: &str, value: &str)
    ensures
        pair_views(final(fields)@) == pair_views(old(fields)@).push((key@, value@)),
{
    fields.push((key.to_owned(), value.to_owned()));
    assert(pair_views(fields@) =~= pair_views(old(fields)@).push((key@, value@)));
}

/// The event for a result code.
pub fn push_business_fields(event: &str, code: i32, from: &str, to: &str) -> (p: Push)
    ensures
        p@ == business_push(event@, code, from@, to@),
{
    let mut fields: Vec<(String, String)> = Vec::new();
    add_field(&mut fields, "result", dec_string(code as i64).as_str());
    assert(pair_views(fields@) =~= seq![("result"@, text::dec_int(code as int))]);
    if !from.is_empty() {
        add_field(&mut fields, "from", from);
    }
    if !to.is_empty() {
        add_field(&mut fields, "to", to);
    }
    Push { event: event.to_owned(), fields }
}

/// Answers with a result of business, and says what to report.
pub fn respond_business_result<W: ResponseWriter>(
    w: &mut W,
    event: &str,
    code: i32,
    from: &str,
    to: &str,
) -> (p: Option<Push>)
    ensures
        final(w).reply() == super::result_reply(old(w).reply(), STATUS_OK, code),
        push_view(p) == if code != result::OK {
            Some(business_push(event@, code, from@, to@))
        } else {
            None
        },
{
    result_json(w, STATUS_OK, code);
    if code != result::OK {
        Some(push_business_fields(event, code, from, to))
    } else {
        None
    }
}

/// Answers after a failed exchange, and says what to report.
pub fn respond_wire_failure<W: ResponseWriter>(
    w: &mut W,
    event: &str,
    kind: Option<WireKind>,
    from: &str,
    to: &str,
) -> (p: Option<Push>)
    ensures
        final(w).reply() == super::result_reply(
            old(w).reply(),
            if wire_code(kind) == result::NO_RING {
                STATUS_OK
            } else {
                STATUS_SERVICE_UNAVAILABLE
            },
            wire_code(kind),
        ),
        push_view(p) == Some(business_push(event@, wire_code(kind), from@, to@)),
{
    let code = classify_wire_kind(kind);
    if code == result::NO_RING {
        return respond_business_result(w, event, code, from, to);
    }
    result_json(w, STATUS_SERVICE_UNAVAILABLE, code);
    Some(push_business_fields(event, code, from, to))
}

/// Answers with the outcome of an unlock, and says what to report.
pub fn respond_unlock_outcome<W: ResponseWriter>(
    w: &mut W,
    event: &str,
    outcome: &UnlockOutcome,
    from: &str,
    to: &str,
) -> (p: Option<Push>)
    ensures
        (final(w).reply(), push_view(p)) == outcome_reply(
            *outcome,
            event@,
            from@,
            to@,
            old(w).reply(),
        ),
{
    if outcome.result == result::OK {
        return respond_business_result(w, event, result::OK, from, to);
    }
    if outcome.result == result::ERR && outcome.wire_kind.is_none() {
        return respond_business_result(w, event, result::ERR, from, to);
    }
    if outcome.terminated_by_bye {
        return respond_wire_failure(w, event, Some(WireKind::SilentFin), from, to);
    }
    respond_wire_failure(w, event, outcome.wire_kind, from, to)
}

/// Every unlock that does not succeed is reported, and none that does.
pub proof fn law_failures_are_reported(
    o: UnlockOutcome,
    event: Seq<char>,
    from: Seq<char>,
    to: Seq<char>,
    before: Reply,
)
    ensures
        outcome_reply(o, event, from, to, before).1 is Some <==> o.result != result::OK,
{
}

/// Carries out unlocks one after the other.
pub trait UnlockDispatch: Sized {
    /// Whether the unlock may end with the outcome and leave the dispatcher as `after`.
    spec fn may_dispatch(&self, call: CallView, o: UnlockOutcome, after: Self) -> bool;

    fn dispatch(
        &mut self,
        caller_bcd: [u8; 4],
        callee_bcd: [u8; 4],
        target_ip: &str,
        target_port: u16,
    ) -> (o: UnlockOutcome)
        ensures
            old(self).may_dispatch(
                (CallView { caller_bcd, callee_bcd, target_ip: target_ip@, target_port }),
                o,
                *final(self),
            ),
    ;
}

/// Dispatches to a sender directly.
pub struct SenderDispatch<S> {
    pub sender: S,
}

/// The outcome for what a sender gave: its result code, or -1 where it failed.
pub open spec fn sender_outcome(r: Result<i32, Seq<char>>) -> UnlockOutcome {
    UnlockOutcome {
        result: match r {
            Ok(code) => code,
            Err(_) => result::ERR,
        },
        retries: 0,
        terminated_by_bye: false,
        wire_kind: None,
    }
}

/// A dispatcher that hands unlocks to a sender.
pub fn dispatch_from_sender<S: Sender>(sender: S) -> (d: SenderDispatch<S>)
    ensures
        d.sender == sender,
{
    SenderDispatch { sender }
}

impl<S: Sender> UnlockDispatch for SenderDispatch<S> {
    open spec fn may_dispatch(&self, call: CallView, o: UnlockOutcome, after: Self) -> bool {
        exists|r: Result<i32, Seq<char>>| #[trigger]
            self.sender.may_end(call, r, after.sender) && o == sender_outcome(r)
    }

    fn dispatch(
        &mut self,
        caller_bcd: [u8; 4],
        callee_bcd: [u8; 4],
        target_ip: &str,
        target_port: u16,
    ) -> (o: UnlockOutcome) {
        let r = self.sender.execute_unlock(caller_bcd, callee_bcd, target_ip, target_port);
        let ghost given = sender::sent_view(r);
        let code: i32 = match r {
            Ok(code) => code,
            Err(SenderError::Wire(_)) => result::ERR,
        };
        let o = UnlockOutcome {
            result: code,
            retries: 0,
            terminated_by_bye: false,
            wire_kind: None,
        };
        assert(o == sender_outcome(given));
        let ghost call = CallView { caller_bcd, callee_bcd, target_ip: target_ip@, target_port };
        assert(old(self).sender.may_end(call, given, self.sender));
        assert(old(self).may_dispatch(call, o, *self));
        o
    }
}

/// Carries out an unlock and answers with its outcome. A request that does not say what to
/// unlock is answered at once and nothing is dispatched.
pub fn handle_unlock<W: ResponseWriter, D: UnlockDispatch>(d: &mut D, w: &mut W, r: &Request) -> (p:
    Option<Push>)
    ensures
        match unlock_plan(r@.body) {
            Err(m) => {
                &&& *final(d) == *old(d)
                &&& final(w).reply() == super::error_reply(
                    old(w).reply(),
                    STATUS_BAD_REQUEST,
                    m,
                )
                &&& p is None
            },
            Ok(plan) => exists|call: CallView, o: UnlockOutcome|
                {
                    &&& #[trigger] old(d).may_dispatch(call, o, *final(d))
                    &&& call.caller_bcd@ == plan.caller_bcd
                    &&& call.callee_bcd@ == plan.callee_bcd
                    &&& call.target_ip == plan.target_ip
                    &&& call.target_port == plan.target_port
                    &&& (final(w).reply(), push_view(p)) == outcome_reply(
                        o,
                        "unlock"@,
                        plan.from,
                        plan.to,
                        old(w).reply(),
                    )
                },
        },
{
    match plan_unlock(r.body.as_slice()) {
        Err(m) => {
            error_json(w, STATUS_BAD_REQUEST, m.as_str());
            None
        },
        Ok(plan) => {
            let o = d.dispatch(
                plan.caller_bcd,
                plan.callee_bcd,
                plan.target_ip.as_str(),
                plan.target_port,
            );
            let ghost call = CallView {
                caller_bcd: plan.caller_bcd,
                callee_bcd: plan.callee_bcd,
                target_ip: plan.target_ip@,
                target_port: plan.target_port,
            };
            assert(old(d).may_dispatch(call, o, *d));
            respond_unlock_outcome(w, "unlock", &o, plan.from.as_str(), plan.to.as_str())
        },
    }
}

} // verus!
