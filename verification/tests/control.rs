//! The control endpoints.

use dooraccess_rs::codec::encode_bcd;
use dooraccess_rs::codec::result;
use dooraccess_rs::config::{Config, Station};
use dooraccess_rs::control::endpoints::{
    classify_wire_kind, dispatch_from_sender, format_uri_err, handle_unlock, parse_uri_bcd,
    push_business_fields, respond_unlock_outcome, SenderDispatch, UnlockDispatch,
};
use dooraccess_rs::control::fields::{parse_auto_toggle_body, parse_unlock_body};
use dooraccess_rs::control::routes::{handler, route, Action, Route, Server};
use dooraccess_rs::control::scan::{json_syntax_check, JSON_EOF};
use dooraccess_rs::control::video::{
    after_peek, after_stream, before_peek, handle_video_dynamic, respond_video_start, respond_video_stop, serve_video_stream,
    ttl_next, ttl_tick, ttl_wait, BesideNext, IdrWait, Peek, PeekNext, StreamTimes, VideoStart,
};
use dooraccess_rs::control::{
    chain_business_post, chain_control_post, error_json, is_json_media_type, method_guard_post, parse_json_body,
    require_json_content_type, require_stations_configured, write_json, AutomationState,
    STATUS_GATEWAY_TIMEOUT, STATUS_SERVICE_UNAVAILABLE, STATUS_UNSUPPORTED_MEDIA,
};
use dooraccess_rs::httpx::json::{encode_struct, JsonOptions, JsonValue};
use dooraccess_rs::httpx::{
    Handler, Header, Reply, Request, RequestView, ResponseWriter, Url, STATUS_BAD_REQUEST,
    STATUS_METHOD_NOT_ALLOWED, STATUS_NOT_FOUND, STATUS_OK,
};
use dooraccess_rs::sender::MockSender;
use dooraccess_rs::unlock::{UnlockOutcome, WireKind};
use std::cell::Cell;
use std::rc::Rc;
use std::sync::Arc;

struct Recorder {
    headers: Header,
    status: u16,
    body: Vec<u8>,
    wrote_header: bool,
}

impl Recorder {
    fn new() -> Self {
        Self {
            headers: Header::new(),
            status: 0,
            body: Vec::new(),
            wrote_header: false,
        }
    }

    fn finish(mut self) -> (u16, Header, Vec<u8>) {
        if !self.wrote_header {
            self.write_header(STATUS_OK);
        }
        (self.status, self.headers, self.body)
    }

    fn pipe(self, f: impl FnOnce(&mut Recorder)) -> (u16, Header, Vec<u8>) {
        let mut rec = self;
        f(&mut rec);
        rec.finish()
    }
}

impl ResponseWriter for Recorder {
    fn reply(&self) -> Reply {
        unreachable!()
    }

    fn set_header(&mut self, key: &str, value: &str) {
        self.headers.set(key, value);
    }

    fn write_header(&mut self, status: u16) {
        if self.wrote_header {
            return;
        }
        self.wrote_header = true;
        self.status = status;
    }

    fn write(&mut self, data: &[u8]) -> usize {
        if !self.wrote_header {
            self.write_header(STATUS_OK);
        }
        self.body.extend_from_slice(data);
        data.len()
    }

    fn flush(&mut self) {}
}

/// Notes that it was called.
struct Inner {
    called: Rc<Cell<bool>>,
    answer: bool,
}

impl Handler for Inner {
    fn answers(&self, _r: RequestView, _before: Reply, _after: Reply) -> bool {
        unreachable!()
    }

    fn serve_http<W: ResponseWriter>(&self, w: &mut W, _r: &Request) {
        self.called.set(true);
        if self.answer {
            w.write_header(STATUS_OK);
        }
    }
}

fn inner() -> (Rc<Cell<bool>>, Inner) {
    let called = Rc::new(Cell::new(false));
    (
        called.clone(),
        Inner {
            called,
            answer: false,
        },
    )
}

fn test_request(method: &str, content_type: Option<&str>, body: &[u8]) -> Request {
    test_request_path(method, "", content_type, body)
}

fn test_request_path(
    method: &str,
    path: &str,
    content_type: Option<&str>,
    body: &[u8],
) -> Request {
    let mut header = Header::new();
    if let Some(ct) = content_type {
        header.set("Content-Type", ct);
    }
    Request {
        method: method.to_string(),
        url: Url {
            path: path.to_string(),
            raw_query: String::new(),
        },
        header,
        body: body.to_vec(),
        host: String::new(),
        remote_addr: String::new(),
        content_length: body.len() as i64,
    }
}

fn conf_with_station() -> Config {
    let mut cfg = Config::default();
    cfg.stations.push(Station {
        sip: "06020000@172.16.106.152:18022".to_string(),
        rtsp_url: String::new(),
    });
    cfg
}

fn text(body: Vec<u8>) -> String {
    String::from_utf8(body).unwrap()
}

#[test]
fn classify_wire_kind_none_is_ok_not_err() {
    assert_eq!(classify_wire_kind(None), result::OK);
    assert_eq!(
        classify_wire_kind(Some(WireKind::SilentFin)),
        result::NO_RING
    );
    assert_eq!(classify_wire_kind(Some(WireKind::Timeout)), result::TIMEOUT);
    assert_eq!(classify_wire_kind(Some(WireKind::Other)), result::ERR);
    assert_eq!(classify_wire_kind(Some(WireKind::Retryable)), result::ERR);
}

#[test]
fn method_guard_post_rejects_get_with_405_allow_json() {
    let (called, inner) = inner();
    let h = method_guard_post(inner);
    let req = test_request("GET", Some("application/json"), b"");
    let (status, headers, body) = Recorder::new().pipe(|w| h.serve_http(w, &req));
    assert_eq!(status, STATUS_METHOD_NOT_ALLOWED);
    assert_eq!(headers.get("Allow"), Some("POST"));
    assert_eq!(headers.get("Content-Type"), Some("application/json"));
    assert!(!body.is_empty());
    assert_eq!(
        text(body),
        r#"{"error":"method GET not allowed; use POST"}"#
    );
    assert!(!called.get());
}

#[test]
fn require_json_content_type_byte_contract() {
    let cases: &[(&str, u16, bool)] = &[
        ("application/json", STATUS_OK, true),
        ("application/json; charset=utf-8", STATUS_OK, true),
        ("Application/JSON", STATUS_OK, true),
        ("APPLICATION/JSON; CHARSET=UTF-8", STATUS_OK, true),
        ("application/JSON; charset=utf-8", STATUS_OK, true),
        (
            "application/x-www-form-urlencoded",
            STATUS_UNSUPPORTED_MEDIA,
            false,
        ),
        ("", STATUS_UNSUPPORTED_MEDIA, false),
        ("text/plain", STATUS_UNSUPPORTED_MEDIA, false),
        ("application/json garbage", STATUS_UNSUPPORTED_MEDIA, false),
    ];
    for (ct, want_status, want_called) in cases {
        let called = Rc::new(Cell::new(false));
        let h = require_json_content_type(Inner {
            called: called.clone(),
            answer: true,
        });
        let req = test_request("POST", if ct.is_empty() { None } else { Some(ct) }, b"");
        let (status, _, body) = Recorder::new().pipe(|w| h.serve_http(w, &req));
        assert_eq!(status, *want_status, "ct={ct:?}");
        assert_eq!(called.get(), *want_called, "ct={ct:?}");
        if !want_called {
            assert_eq!(
                text(body),
                r#"{"error":"Content-Type must be application/json"}"#
            );
        }
    }
}

#[test]
fn require_stations_configured_empty_returns_200_result_minus_100() {
    let (called, inner) = inner();
    let h = require_stations_configured(Arc::new(Config::default()), inner);
    let req = test_request("POST", Some("application/json"), b"{}");
    let (status, _, body) = Recorder::new().pipe(|w| h.serve_http(w, &req));
    assert_eq!(status, STATUS_OK);
    assert_eq!(text(body), r#"{"result":-100}"#);
    assert!(!called.get());
}

#[test]
fn require_stations_configured_with_stations_calls_inner() {
    let (called, inner) = inner();
    let h = require_stations_configured(Arc::new(conf_with_station()), inner);
    let req = test_request("POST", Some("application/json"), b"{}");
    Recorder::new().pipe(|w| h.serve_http(w, &req));
    assert!(called.get());
}

#[test]
fn chain_business_post_method_mismatch_405() {
    let (called, inner) = inner();
    let h = chain_business_post(Arc::new(conf_with_station()), inner);
    let req = test_request("GET", Some("application/json"), b"");
    let (status, headers, body) = Recorder::new().pipe(|w| h.serve_http(w, &req));
    assert_eq!(status, STATUS_METHOD_NOT_ALLOWED);
    assert_eq!(headers.get("Allow"), Some("POST"));
    assert!(text(body).contains(r#""error":"#));
    assert!(!called.get());
}

#[test]
fn chain_business_post_wrong_content_type_415() {
    let (called, inner) = inner();
    let h = chain_business_post(Arc::new(conf_with_station()), inner);
    let req = test_request("POST", Some("text/plain"), b"{}");
    let (status, _, body) = Recorder::new().pipe(|w| h.serve_http(w, &req));
    assert_eq!(status, STATUS_UNSUPPORTED_MEDIA);
    assert_eq!(
        text(body),
        r#"{"error":"Content-Type must be application/json"}"#
    );
    assert!(!called.get());
}

#[test]
fn chain_business_post_no_stations_200_minus_100() {
    let (called, inner) = inner();
    let h = chain_business_post(Arc::new(Config::default()), inner);
    let req = test_request("POST", Some("application/json"), b"{}");
    let (status, _, body) = Recorder::new().pipe(|w| h.serve_http(w, &req));
    assert_eq!(status, STATUS_OK);
    assert_eq!(text(body), r#"{"result":-100}"#);
    assert!(!called.get());
}

#[test]
fn write_json_no_trailing_newline_fixed_length() {
    let (status, headers, body) = Recorder::new().pipe(|w| {
        write_json(
            w,
            STATUS_OK,
            Some(&[
                ("result", JsonValue::Number(0)),
                ("auto_unlock", JsonValue::Bool(true)),
            ]),
        );
    });
    assert_eq!(status, STATUS_OK);
    assert_eq!(headers.get("Content-Type"), Some("application/json"));
    assert_eq!(headers.get("Content-Length"), Some("31"));
    assert!(!body.ends_with(b"\n"));
    assert_eq!(text(body), r#"{"result":0,"auto_unlock":true}"#);
}

#[test]
fn error_json_shape() {
    let (_, _, body) = Recorder::new().pipe(|w| {
        error_json(w, STATUS_BAD_REQUEST, "missing 'to' field");
    });
    assert_eq!(text(body), r#"{"error":"missing 'to' field"}"#);
}

#[test]
fn parse_json_body_empty_and_valid() {
    assert!(parse_json_body(b"").unwrap().is_empty());
    let raw = parse_json_body(br#"{"on":true}"#).unwrap();
    assert_eq!(raw, br#"{"on":true}"#);
}

#[test]
fn parse_json_body_rejects_invalid() {
    assert!(parse_json_body(b"not-json{").is_err());
}

#[test]
fn is_json_media_type_unit() {
    assert!(is_json_media_type("application/json"));
    assert!(is_json_media_type("Application/JSON; charset=utf-8"));
    assert!(!is_json_media_type("application/x-www-form-urlencoded"));
    assert!(!is_json_media_type(""));
}

fn sample_server_cfg() -> Config {
    let mut cfg = Config::default();
    cfg.sip = "12345678@10.0.0.20:18022".into();
    cfg.stations.push(Station {
        sip: "12340000@10.0.0.10:18022".into(),
        rtsp_url: String::new(),
    });
    cfg
}

fn sample_server(automation: Option<AutomationState>) -> Server {
    Server::new(sample_server_cfg(), "v0.2.0", 7, automation)
}

#[test]
fn handler_construction_no_duplicate_pattern_panic() {
    let table = handler();
    assert_eq!(route(&table, "/unlock"), Some(Route::Unlock));
    assert_eq!(route(&table, "/video/x/y"), Some(Route::VideoResource));
    assert_eq!(route(&table, "/nowhere"), None);
}

#[test]
fn auto_toggle_body_matches_go_unmarshal_semantics() {
    assert_eq!(parse_auto_toggle_body(b""), Ok(false));
    assert_eq!(parse_auto_toggle_body(b"{}"), Ok(false));
    assert_eq!(parse_auto_toggle_body(b"null"), Ok(false));
    assert_eq!(parse_auto_toggle_body(br#"{"foo":1}"#), Ok(false));
    assert_eq!(parse_auto_toggle_body(br#"{"on":true}"#), Ok(true));
    assert_eq!(parse_auto_toggle_body(br#"{"ON":true}"#), Ok(true));
    assert!(parse_auto_toggle_body(b"[bad").is_err());
    assert_eq!(parse_auto_toggle_body(br#"{"on":null}"#), Ok(false));
    assert!(parse_auto_toggle_body(b"   ").is_err());
    assert_eq!(
        parse_auto_toggle_body(br#"{"on":true,"on":false}"#),
        Ok(false)
    );
    assert!(parse_auto_toggle_body(br#"{"on":1}"#).is_err());
}

#[test]
fn unlock_empty_body_falls_to_missing_to() {
    let (from, to) = parse_unlock_body(b"").expect("empty unlock body is no error");
    assert!(from.is_empty() && to.is_empty());
}

#[test]
fn unlock_body_string_extractor_last_wins_and_skips_nested() {
    let (_, to) = parse_unlock_body(br#"{"to":"a","to":"b"}"#).unwrap();
    assert_eq!(to, "b");
    let (_, to) = parse_unlock_body(br#"{"foo":{"to":"x"},"to":"y"}"#).unwrap();
    assert_eq!(to, "y");
}

#[test]
fn post_auto_unlock_toggles_persists_and_returns_field() {
    let mut s = sample_server(Some(AutomationState::new(false, false)));
    let mut saved = 0;
    let req = test_request_path(
        "POST",
        "/auto_unlock",
        Some("application/json"),
        br#"{"on":true}"#,
    );
    let (status, _, body) = Recorder::new().pipe(|w| {
        if s.serve_http(w, &req) == Action::Save {
            saved += 1;
        }
    });
    assert_eq!(status, STATUS_OK);
    assert_eq!(text(body), r#"{"result":0,"auto_unlock":true}"#);
    assert_eq!(saved, 1);
    assert!(s.automation.unwrap().load_auto_unlock());

    let req = test_request_path(
        "POST",
        "/auto_unlock",
        Some("application/json"),
        br#"{"on":false}"#,
    );
    let (_, _, body) = Recorder::new().pipe(|w| {
        if s.serve_http(w, &req) == Action::Save {
            saved += 1;
        }
    });
    assert_eq!(text(body), r#"{"result":0,"auto_unlock":false}"#);
    assert_eq!(saved, 2);
    assert!(!s.automation.unwrap().load_auto_unlock());
}

#[test]
fn post_auto_hangup_returns_auto_hangup_field_not_auto_unlock() {
    let mut s = sample_server(Some(AutomationState::new(false, false)));
    let req = test_request_path(
        "POST",
        "/auto_hangup",
        Some("application/json"),
        br#"{"on":true}"#,
    );
    let (status, _, body) = Recorder::new().pipe(|w| {
        s.serve_http(w, &req);
    });
    assert_eq!(status, STATUS_OK);
    let raw = text(body);
    assert!(raw.contains(r#""auto_hangup":true"#));
    assert!(!raw.contains("auto_unlock"));
    assert_eq!(raw, r#"{"result":0,"auto_hangup":true}"#);
}

#[test]
fn get_automation_returns_both_flags() {
    let mut s = sample_server(Some(AutomationState::new(true, false)));
    let req = test_request_path("GET", "/automation", None, b"");
    let (status, _, body) = Recorder::new().pipe(|w| {
        s.serve_http(w, &req);
    });
    assert_eq!(status, STATUS_OK);
    assert_eq!(
        text(body),
        r#"{"result":0,"auto_unlock":true,"auto_hangup":false}"#
    );
}

#[test]
fn post_auto_unlock_persist_failure_still_result_zero() {
    // The answer stands before anything is saved, so that saving cannot change it.
    let mut s = sample_server(Some(AutomationState::new(false, false)));
    let req = test_request_path(
        "POST",
        "/auto_unlock",
        Some("application/json"),
        br#"{"on":true}"#,
    );
    let mut rec = Recorder::new();
    assert_eq!(s.serve_http(&mut rec, &req), Action::Save);
    let (status, _, body) = rec.finish();
    assert_eq!(status, STATUS_OK);
    assert_eq!(text(body), r#"{"result":0,"auto_unlock":true}"#);
}

#[test]
fn get_info_uses_render_json_chunked_no_content_length() {
    let mut s = Server::new(sample_server_cfg(), "v0.2.0-test", 7, None);
    let req = test_request_path("GET", "/info", None, b"");
    let (status, headers, body) = Recorder::new().pipe(|w| {
        s.serve_http(w, &req);
    });
    assert_eq!(status, STATUS_OK);
    assert_eq!(headers.get("Content-Type"), Some("application/json"));
    assert!(headers.get("Content-Length").is_none());
    let rs = text(body);
    assert!(rs.contains(r#""daemon":"dooraccess-go""#));
    assert!(rs.contains(r#""version":"v0.2.0-test""#));
    assert!(rs.ends_with('\n'));
}

#[test]
fn get_playback_empty_body_content_length_zero() {
    let mut s = sample_server(None);
    let req = test_request_path("GET", "/playback", None, b"");
    let (status, headers, body) = Recorder::new().pipe(|w| {
        s.serve_http(w, &req);
    });
    assert_eq!(status, STATUS_OK);
    assert_eq!(headers.get("Content-Length"), Some("0"));
    assert!(body.is_empty());
}

fn unlock_body(from: &str, to: &str) -> Vec<u8> {
    format!(r#"{{"from":"{from}","to":"{to}"}}"#).into_bytes()
}

/// Serves a request and carries out an unlock where one is asked for.
fn serve(
    s: &mut Server,
    d: &mut SenderDispatch<MockSender>,
    req: &Request,
) -> (u16, Header, Vec<u8>) {
    Recorder::new().pipe(|w| {
        if let Action::Dispatch(p) = s.serve_http(w, req) {
            let o = d.dispatch(p.caller_bcd, p.callee_bcd, &p.target_ip, p.target_port);
            respond_unlock_outcome(w, "unlock", &o, &p.from, &p.to);
        }
    })
}

#[test]
fn post_unlock_success_mock_sender_returns_result_zero() {
    let mut s = sample_server(None);
    let mut d = dispatch_from_sender(MockSender::success());
    let req = test_request_path(
        "POST",
        "/unlock",
        Some("application/json"),
        &unlock_body("12345678@10.0.0.1:18022", "12340000@10.0.0.10:18022"),
    );
    let (status, _, body) = serve(&mut s, &mut d, &req);
    assert_eq!(status, STATUS_OK);
    assert_eq!(text(body), r#"{"result":0}"#);

    let call = d.sender.last_call().expect("sender called");
    assert_eq!(call.target_ip, "10.0.0.10");
    assert_eq!(call.target_port, 18022);
    assert_eq!(call.caller_bcd, encode_bcd("12340000").unwrap());
    assert_eq!(call.callee_bcd, encode_bcd("12345678").unwrap());
}

#[test]
fn post_unlock_mock_sender_injectable_failure() {
    let mut s = sample_server(None);
    let mut d = dispatch_from_sender(MockSender::wire_err("mock wire failure"));
    let req = test_request_path(
        "POST",
        "/unlock",
        Some("application/json"),
        &unlock_body("12345678@10.0.0.1:18022", "12340000@10.0.0.10:18022"),
    );
    let (status, _, body) = serve(&mut s, &mut d, &req);
    assert_eq!(status, STATUS_OK);
    assert_eq!(text(body), format!(r#"{{"result":{}}}"#, result::ERR));
}

#[test]
fn post_unlock_missing_to_400() {
    let mut s = sample_server(None);
    let mut d = dispatch_from_sender(MockSender::success());
    let req = test_request_path(
        "POST",
        "/unlock",
        Some("application/json"),
        br#"{"from":"12345678@10.0.0.1:18022"}"#,
    );
    let (status, _, body) = serve(&mut s, &mut d, &req);
    assert_eq!(status, STATUS_BAD_REQUEST);
    assert!(text(body).contains("missing 'to' field"));
}

#[test]
fn post_unlock_bad_from_uri_400() {
    let mut s = sample_server(None);
    let mut d = dispatch_from_sender(MockSender::success());
    let req = test_request_path(
        "POST",
        "/unlock",
        Some("application/json"),
        &unlock_body("garbage", "12340000@10.0.0.10:18022"),
    );
    let (status, _, body) = serve(&mut s, &mut d, &req);
    assert_eq!(status, STATUS_BAD_REQUEST);
    assert!(text(body).contains("invalid 'from' URI"));
}

#[test]
fn post_unlock_get_rejected_by_middleware_chain() {
    let mut s = sample_server(None);
    let mut d = dispatch_from_sender(MockSender::success());
    let req = test_request_path("GET", "/unlock", Some("application/json"), b"");
    let (status, headers, _) = serve(&mut s, &mut d, &req);
    assert_eq!(status, STATUS_METHOD_NOT_ALLOWED);
    assert_eq!(headers.get("Allow"), Some("POST"));
    assert!(d.sender.last_call().is_none());
}

#[test]
fn post_unlock_no_stations_returns_result_minus_100() {
    let mut cfg = Config::default();
    cfg.sip = "12345678@10.0.0.20:18022".into();
    let mut s = Server::new(cfg, "v0.2.0", 7, None);
    let mut d = dispatch_from_sender(MockSender::success());
    let req = test_request_path(
        "POST",
        "/unlock",
        Some("application/json"),
        &unlock_body("12345678@10.0.0.1:18022", "12340000@10.0.0.10:18022"),
    );
    let (status, _, body) = serve(&mut s, &mut d, &req);
    assert_eq!(status, STATUS_OK);
    assert_eq!(text(body), r#"{"result":-100}"#);
}

#[test]
fn unlock_handler_answers_and_reports() {
    let mut d = dispatch_from_sender(MockSender::with_result(result::ERR));
    let req = test_request(
        "POST",
        None,
        &unlock_body("12345678@10.0.0.1:18022", "12340000@10.0.0.10:18022"),
    );
    let mut push = None;
    let (status, _, body) = Recorder::new().pipe(|w| {
        push = handle_unlock(&mut d, w, &req);
    });
    assert_eq!(status, STATUS_OK);
    assert_eq!(text(body), r#"{"result":-1}"#);
    let push = push.unwrap();
    assert_eq!(push.event, "unlock");
    assert_eq!(
        push.fields[0],
        ("result".to_string(), "-1".to_string())
    );
    assert!(push
        .fields
        .contains(&("to".to_string(), "12340000@10.0.0.10:18022".to_string())));
}

#[test]
fn wire_failure_is_answered_503_and_reported() {
    let o = UnlockOutcome {
        result: result::ERR,
        retries: 0,
        terminated_by_bye: false,
        wire_kind: Some(WireKind::Other),
    };
    let mut push = None;
    let (status, _, body) = Recorder::new().pipe(|w| {
        push = respond_unlock_outcome(w, "unlock", &o, "", "");
    });
    assert_eq!(status, STATUS_SERVICE_UNAVAILABLE);
    assert!(text(body).contains(r#""result":-1"#));
    assert_eq!(push.unwrap().fields.len(), 1);
}

#[test]
fn business_fields_leave_out_unknown_addresses() {
    let p = push_business_fields("unlock", 0, "", "b");
    assert_eq!(
        p.fields,
        vec![
            ("result".to_string(), "0".to_string()),
            ("to".to_string(), "b".to_string())
        ]
    );
}

#[test]
fn uri_errors_name_what_is_wrong() {
    let e = parse_uri_bcd("garbage").unwrap_err();
    assert!(!e.is_empty());
    let (bcd, ip, port) = parse_uri_bcd("06020000@172.16.106.201:18022").unwrap();
    assert_eq!(bcd, [0x06, 0x02, 0x00, 0x00]);
    assert_eq!(ip, "172.16.106.201");
    assert_eq!(port, 18022);
    assert!(!format_uri_err(
        &dooraccess_rs::codec::UriError::IPv4Only,
        "06020000@x:1"
    )
    .is_empty());
}

const VIDEO_OUTDOOR_URI: &str = "06020000@172.16.106.152:18022";
const VIDEO_FIXED_UUID: &str = "11111111-2222-4333-8444-555555555555";

fn video_server(on: bool) -> Server {
    let mut cfg = Config::default();
    cfg.sip = "06021103@10.0.0.91:18022".into();
    cfg.stations.push(Station {
        sip: VIDEO_OUTDOOR_URI.to_string(),
        rtsp_url: String::new(),
    });
    let mut s = Server::new(cfg, "v-test", 7, None);
    s.set_video(on);
    s
}

#[test]
fn video_nilguard_precedes_body_parse() {
    let mut s = video_server(false);
    for path in ["/video/start", "/video/stop"] {
        let req = test_request_path("POST", path, Some("application/json"), b"{bad");
        let (status, _, body) = Recorder::new().pipe(|w| {
            s.serve_http(w, &req);
        });
        assert_eq!(status, STATUS_SERVICE_UNAVAILABLE, "{path}");
        assert_eq!(
            text(body),
            r#"{"error":"video forward not enabled"}"#,
            "{path}"
        );
    }
    let req = test_request_path("POST", "/video/not-even-a-uuid", None, b"");
    let (status, _, body) = Recorder::new().pipe(|w| {
        s.serve_http(w, &req);
    });
    assert_eq!(status, STATUS_SERVICE_UNAVAILABLE);
    assert_eq!(text(body), r#"{"error":"video forward not enabled"}"#);
}

/// Serves a video request where only the session `known` exists.
fn watch(s: &mut Server, known: Option<&str>, req: &Request) -> (u16, Header, Vec<u8>) {
    Recorder::new().pipe(|w| {
        if let Action::Watch {
            session_id,
            resource,
        } = s.serve_http(w, req)
        {
            let valid = session_id == VIDEO_FIXED_UUID;
            let found = known == Some(session_id.as_str());
            handle_video_dynamic(valid, found, &resource, w, req);
        }
    })
}

#[test]
fn video_dynamic_judge_order() {
    let mut s = video_server(true);
    let stream = format!("/video/{VIDEO_FIXED_UUID}/stream.flv");
    let cases: &[(&str, &str, u16, &str)] = &[
        (
            "GET",
            "/video/onlyoneseg",
            STATUS_NOT_FOUND,
            r#"{"error":"video: malformed path"}"#,
        ),
        (
            "GET",
            "/video/not-a-uuid/stream.flv",
            STATUS_BAD_REQUEST,
            r#"{"error":"invalid session_id"}"#,
        ),
        (
            "POST",
            "/video/not-a-uuid/stream.flv",
            STATUS_BAD_REQUEST,
            r#"{"error":"invalid session_id"}"#,
        ),
        (
            "POST",
            &stream,
            STATUS_METHOD_NOT_ALLOWED,
            r#"{"error":"method POST not allowed; use GET"}"#,
        ),
        (
            "GET",
            &stream,
            STATUS_NOT_FOUND,
            r#"{"error":"video: session not found"}"#,
        ),
    ];
    for (method, path, want_status, want_body) in cases {
        let req = test_request_path(method, path, None, b"");
        let (status, headers, body) = watch(&mut s, None, &req);
        assert_eq!(status, *want_status, "{method} {path}");
        assert_eq!(text(body), *want_body, "{method} {path}");
        if *want_status == STATUS_METHOD_NOT_ALLOWED {
            assert_eq!(headers.get("Allow"), Some("GET"), "{method} {path}");
        }
    }

    let req = test_request_path(
        "GET",
        &format!("/video/{VIDEO_FIXED_UUID}/something.weird"),
        None,
        b"",
    );
    let (status, _, body) = watch(&mut s, Some(VIDEO_FIXED_UUID), &req);
    assert_eq!(status, STATUS_NOT_FOUND);
    assert_eq!(text(body), r#"{"error":"video: unknown resource"}"#);
    let req = test_request_path(
        "GET",
        &format!("/video/{VIDEO_FIXED_UUID}/snapshot.jpg"),
        None,
        b"",
    );
    let (status, _, body) = watch(&mut s, Some(VIDEO_FIXED_UUID), &req);
    assert_eq!(status, STATUS_SERVICE_UNAVAILABLE);
    assert_eq!(
        text(body),
        r#"{"error":"snapshot transcoding not supported on this hardware; HACS should fall back to stream-source ffmpeg"}"#
    );
}

#[test]
fn video_start_stop_allowlist_reject() {
    let mut s = video_server(true);
    for path in ["/video/start", "/video/stop"] {
        let req = test_request_path(
            "POST",
            path,
            Some("application/json"),
            br#"{"outdoor":"06020009@10.9.9.9:18022"}"#,
        );
        let mut action = Action::Save;
        let (status, _, body) = Recorder::new().pipe(|w| {
            action = s.serve_http(w, &req);
        });
        assert_eq!(status, STATUS_BAD_REQUEST, "{path}");
        assert_eq!(
            text(body),
            r#"{"error":"outdoor not in cfg.stations allowlist"}"#,
            "{path}"
        );
        assert_eq!(action, Action::Done, "no session is touched");
    }
}

#[test]
fn video_stop_idempotent_200() {
    let mut s = video_server(true);
    let req = test_request_path(
        "POST",
        "/video/stop",
        Some("application/json"),
        format!(r#"{{"outdoor":"{VIDEO_OUTDOOR_URI}"}}"#).as_bytes(),
    );
    let (status, _, body) = Recorder::new().pipe(|w| {
        assert!(matches!(s.serve_http(w, &req), Action::StopVideo(_)));
        respond_video_stop(w);
    });
    assert_eq!(status, STATUS_OK);
    assert_eq!(text(body), r#"{"result":0}"#);
}

#[test]
fn video_start_hands_out_the_configured_station() {
    let mut s = video_server(true);
    let req = test_request_path(
        "POST",
        "/video/start",
        Some("application/json"),
        format!(r#"{{"outdoor":"{VIDEO_OUTDOOR_URI}"}}"#).as_bytes(),
    );
    let mut rec = Recorder::new();
    match s.serve_http(&mut rec, &req) {
        Action::StartVideo(o) => assert_eq!(o.uri, VIDEO_OUTDOOR_URI),
        other => panic!("{other:?}"),
    }
    let (status, _, body) = Recorder::new().pipe(|w| respond_video_start(w, &VideoStart::Conflict("busy".into())));
    assert_eq!(status, 409);
    assert_eq!(text(body), r#"{"error":"busy"}"#);
    let (status, _, body) = Recorder::new().pipe(|w| {
        respond_video_start(
            w,
            &VideoStart::Started {
                session_id: "id".into(),
                stream_url: "/video/id/stream.flv".into(),
                ttl_secs: 30,
            },
        )
    });
    assert_eq!(status, STATUS_OK);
    assert_eq!(
        text(body),
        r#"{"session_id":"id","stream_url":"/video/id/stream.flv","ttl":30}"#
    );
}

#[test]
fn go_json_syntax_check_literals() {
    assert_eq!(
        json_syntax_check(b"{bad").unwrap_err(),
        "invalid character 'b' looking for beginning of object key string"
    );
    assert_eq!(json_syntax_check(b"{\"a\":").unwrap_err(), JSON_EOF);
    assert_eq!(json_syntax_check(b"   ").unwrap_err(), JSON_EOF);
    assert_eq!(
        json_syntax_check(b"{}x").unwrap_err(),
        "invalid character 'x' after top-level value"
    );
    assert_eq!(
        json_syntax_check(b"{\"a\" 1}").unwrap_err(),
        "invalid character '1' after object key"
    );
    assert_eq!(
        json_syntax_check(b"{\"a\":1 \"b\":2}").unwrap_err(),
        "invalid character '\"' after object key:value pair"
    );
    assert_eq!(
        json_syntax_check(b"[1 2]").unwrap_err(),
        "invalid character '2' after array element"
    );
    assert_eq!(json_syntax_check(b"tru").unwrap_err(), JSON_EOF);
    assert_eq!(
        json_syntax_check(b"trux").unwrap_err(),
        "invalid character 'x' in literal true (expecting 'e')"
    );
    assert!(json_syntax_check(
        "{\"outdoor\":\"a@b:1\",\"n\":-1.5e-3,\"arr\":[true,null,{}],\"s\":\"é\\n\"}".as_bytes()
    )
    .is_ok());
}

#[test]
fn video_stream_ttl_and_error_taxonomy() {
    let mut times = StreamTimes::default();
    let old = times.set_stream_startup_timeout_ms(100);
    assert_eq!(times.set_stream_startup_timeout_ms(old), 100);
    let old = times.set_ttl_refresh_period_ms(100);
    assert_eq!(times.set_ttl_refresh_period_ms(old), 100);

    let mut go = true;
    let (status, _, body) = Recorder::new().pipe(|w| {
        go = serve_video_stream(IdrWait::Timeout, false, false, w);
    });
    assert!(!go, "a failure does not keep the session alive");
    assert_eq!(status, STATUS_GATEWAY_TIMEOUT);
    assert_eq!(
        text(body),
        r#"{"error":"video: no keyframe within startup timeout; outdoor not pushing RTP"}"#
    );

    let (status, _, body) = Recorder::new().pipe(|w| {
        go = serve_video_stream(IdrWait::Ready, false, false, w);
    });
    assert!(!go, "a failure does not keep the session alive");
    assert_eq!(status, STATUS_GATEWAY_TIMEOUT);
    assert_eq!(
        text(body),
        r#"{"error":"video: stream not ready (missing SPS/PPS)"}"#
    );

    let (status, _, body) = Recorder::new().pipe(|w| {
        go = serve_video_stream(IdrWait::Closed, false, false, w);
    });
    assert!(!go);
    assert_eq!(status, STATUS_SERVICE_UNAVAILABLE);
    assert_eq!(text(body), r#"{"error":"video: session closed"}"#);

    let (status, headers, _) = Recorder::new().pipe(|w| {
        go = serve_video_stream(IdrWait::Ready, false, true, w);
    });
    assert!(go);
    assert_eq!(status, STATUS_OK);
    assert_eq!(headers.get("Content-Type"), Some("video/x-flv"));
    assert_eq!(headers.get("Cache-Control"), Some("no-store"));

    let t = ttl_tick(1_000, 1_000, 100);
    assert!(t.refresh);
    assert_eq!(t.next, 1_100);
    assert!(!ttl_tick(999, 1_000, 100).refresh);
    assert_eq!(ttl_wait(0, 5), 5);
}

#[test]
fn fin_peek_closes_frame_buffer_on_disconnect() {
    assert_eq!(after_peek(Peek::Ended), PeekNext::Close);
}

#[test]
fn a_readable_connection_is_watched_further() {
    assert_eq!(after_peek(Peek::Nothing), PeekNext::Again);
    assert_eq!(after_peek(Peek::Data), PeekNext::Park);
    assert_eq!(after_peek(Peek::Broken), PeekNext::Close);
}

#[test]
fn flags_are_set_without_stations() {
    let (called, inner) = inner();
    let h = chain_control_post(inner);
    let req = test_request("POST", Some("application/json"), b"{}");
    Recorder::new().pipe(|w| h.serve_http(w, &req));
    assert!(called.get());
    let req = test_request("GET", Some("application/json"), b"{}");
    let (status, _, _) = Recorder::new().pipe(|w| h.serve_http(w, &req));
    assert_eq!(status, STATUS_METHOD_NOT_ALLOWED);
}

#[test]
fn written_unlock_bodies_read_back() {
    let from = "06021103@172.16.106.91:18022";
    let to = "Tür 2";
    for opts in [JsonOptions::marshal(), JsonOptions::encode()] {
        let body = encode_struct(
            &[
                ("from", JsonValue::String(from.into())),
                ("to", JsonValue::String(to.into())),
            ],
            opts,
        );
        assert_eq!(parse_unlock_body(&body), Ok((from.into(), to.into())));
    }
}

#[test]
fn loops_beside_a_stream_end() {
    assert_eq!(before_peek(true), PeekNext::End);
    assert_eq!(before_peek(false), PeekNext::Again);
    assert_eq!(ttl_next(false, None), BesideNext::GoOn);
    assert_eq!(ttl_next(false, Some(true)), BesideNext::GoOn);
    assert_eq!(ttl_next(false, Some(false)), BesideNext::End);
    assert_eq!(ttl_next(true, None), BesideNext::End);
    assert_eq!(ttl_next(true, Some(true)), BesideNext::End);
}

#[test]
fn ended_streams_stop_their_session() {
    let o = after_stream(Some("broken pipe"), "s1");
    assert_eq!(
        o.line.as_deref(),
        Some("video: stream writer exited: broken pipe")
    );
    assert_eq!(o.stop, "s1");
    let o = after_stream(None, "s2");
    assert!(o.line.is_none());
    assert_eq!(o.stop, "s2");
}
