//! Requests and responses.

use dooraccess_rs::control::error_json;
use dooraccess_rs::control::scan::json_syntax_check;
use dooraccess_rs::httpx::client::{
    after_dial_round, new_request, response_failure, split_url, unless_cancelled, Client, DialNext,
};
use dooraccess_rs::httpx::header::canonical_mime_header_key;
use dooraccess_rs::httpx::json::{
    encode_map, encode_struct, encode_value, JsonMap, JsonOptions, JsonValue,
};
use dooraccess_rs::httpx::mux::{http404, request_with_path, ServeMux};
use dooraccess_rs::httpx::parse::{
    parse_request_line, parse_status_line, read_request, read_response, split_path_query,
    RequestRead, ResponseError, ResponseRead,
};
use dooraccess_rs::httpx::response::{write_chunk, ResponseWriterImpl};
use dooraccess_rs::httpx::server::{
    after_accept_failure, handler_failed, io_wait, listen_addr, refresh_read_timeout, respond,
    shutdown_step, write_limit, write_protocol_error, AcceptNext, ServerClosedError,
    ShutdownError, Wait,
};
use dooraccess_rs::httpx::{
    status_text, Handler, Header, HttpProtocolError, ReadRequestError, Reply, Request, RequestView, ResponseWriter, Url,
    METHOD_GET, METHOD_POST, STATUS_OK,
};

#[test]
fn map_keys_alphabetical() {
    let mut m = JsonMap::new();
    m.insert("event".into(), JsonValue::String("x".into()));
    m.insert("video_forward".into(), JsonValue::String("1".into()));
    m.insert("video_format".into(), JsonValue::String("2".into()));
    m.insert("wwan".into(), JsonValue::String("3".into()));
    let out = encode_map(&m, JsonOptions::marshal());
    let s = String::from_utf8(out).unwrap();
    assert!(s.starts_with(r#"{"event":"x","video_format":"2","video_forward":"1","wwan":"3"}"#));
}

#[test]
fn map_keys_replace_earlier_ones() {
    let mut m = JsonMap::new();
    m.insert("b".into(), JsonValue::Number(1));
    m.insert("a".into(), JsonValue::Null);
    m.insert("b".into(), JsonValue::Bool(false));
    let out = encode_map(&m, JsonOptions::marshal());
    assert_eq!(out, br#"{"a":null,"b":false}"#);
}

#[test]
fn struct_keys_declaration_order() {
    let out = encode_struct(
        &[
            ("result", JsonValue::Number(0)),
            ("auto_unlock", JsonValue::Bool(true)),
        ],
        JsonOptions::marshal(),
    );
    assert_eq!(
        String::from_utf8(out).unwrap(),
        r#"{"result":0,"auto_unlock":true}"#
    );
}

#[test]
fn empty_array_not_null() {
    let out = encode_struct(
        &[("outdoor_stations", JsonValue::Array(vec![]))],
        JsonOptions::encode(),
    );
    assert!(out.starts_with(br#"{"outdoor_stations":[]}"#));
    assert!(out.ends_with(b"\n"));
}

#[test]
fn trailing_newline_modes() {
    let fields = &[("result", JsonValue::Number(0))];
    let marshal = encode_struct(fields, JsonOptions::marshal());
    assert!(!marshal.ends_with(b"\n"));
    let encode = encode_struct(fields, JsonOptions::encode());
    assert!(encode.ends_with(b"\n"));
}

#[test]
fn escape_edge_cases_match_go() {
    let v = JsonValue::String("\u{2028}\u{2029}".into());
    assert_eq!(
        String::from_utf8(encode_value(&v, JsonOptions::marshal())).unwrap(),
        "\"\\u2028\\u2029\""
    );
    assert_eq!(
        String::from_utf8(encode_value(&v, JsonOptions::encode())).unwrap(),
        "\"\\u2028\\u2029\"\n"
    );
    let del = JsonValue::String("a\u{7f}b".into());
    assert_eq!(
        String::from_utf8(encode_value(&del, JsonOptions::marshal())).unwrap(),
        "\"a\u{7f}b\""
    );
    let ctrl = JsonValue::String("\u{1f}".into());
    assert_eq!(
        String::from_utf8(encode_value(&ctrl, JsonOptions::marshal())).unwrap(),
        "\"\\u001f\""
    );
}

#[test]
fn html_escape_toggle() {
    let v = JsonValue::String("<>&".into());
    let escaped = encode_value(&v, JsonOptions::marshal());
    assert_eq!(
        String::from_utf8(escaped).unwrap(),
        r#""\u003c\u003e\u0026""#
    );
    let plain = encode_value(&v, JsonOptions::encode());
    assert_eq!(String::from_utf8(plain).unwrap(), "\"<>&\"\n");
}

#[test]
fn nested_values_are_written_in_full() {
    let v = JsonValue::Array(vec![
        JsonValue::Struct(vec![("a\n".into(), JsonValue::Number(-5))]),
        JsonValue::Dict(JsonMap::new()),
        JsonValue::String("\u{8}\u{c}\t\r\"\\é".into()),
    ]);
    assert_eq!(
        String::from_utf8(encode_value(&v, JsonOptions::marshal())).unwrap(),
        "[{\"a\\n\":-5},{},\"\\b\\f\\t\\r\\\"\\\\é\"]"
    );
}

/// What a client sends for `req`, as text.
fn sent(c: &Client, url: &str, method: &str, body: Option<&[u8]>) -> (String, String) {
    let mut req = new_request(method, url, body).unwrap();
    if body.is_some() {
        req.set_header("Content-Type", "application/json");
        req.set_header("Authorization", "Bearer xxx");
    }
    let (hostport, bytes) = c.prepare(&req).unwrap();
    (hostport, String::from_utf8(bytes).unwrap())
}

fn response(raw: &str) -> (u16, Vec<u8>) {
    match read_response(raw.as_bytes(), true, "short") {
        ResponseRead::Done(r) => (r.status_code, r.body),
        _ => panic!("no response"),
    }
}

#[test]
fn client_basic_get() {
    let c = Client {
        timeout: Some(1_000_000_000),
    };
    let (hostport, req) = sent(&c, "http://127.0.0.1:81/info", METHOD_GET, None);
    assert_eq!(hostport, "127.0.0.1:81");
    assert!(req.starts_with("GET /info HTTP/1.1\r\n"));
    assert!(req.contains("Connection: close"));
    let (status, body) = response("HTTP/1.1 200 OK\r\nContent-Length: 2\r\n\r\nok");
    assert_eq!(status, 200);
    assert_eq!(body, b"ok");
}

#[test]
fn client_post_with_body() {
    let c = Client {
        timeout: Some(1_000_000_000),
    };
    let body = br#"{"event":"unlock"}"#;
    let (_, req) = sent(&c, "http://127.0.0.1:81/unlock", METHOD_POST, Some(body));
    assert!(req.contains(r#"{"event":"unlock"}"#));
    assert!(req.contains("Content-Type: application/json"));
    assert!(req.contains("Authorization: Bearer xxx"));
    assert!(req.contains("Content-Length: 18"));
    let (status, _) = response("HTTP/1.1 200 OK\r\nContent-Length: 0\r\n\r\n");
    assert_eq!(status, 200);
}

#[test]
fn client_request_reads_back() {
    let c = Client { timeout: None };
    let (_, req) = sent(&c, "http://h/a/b?x=1", METHOD_POST, Some(b"{}"));
    match read_request(req.as_bytes(), false) {
        RequestRead::Done(r) => {
            assert_eq!(r.method, "POST");
            assert_eq!(r.url.path, "/a/b");
            assert_eq!(r.url.raw_query, "x=1");
            assert_eq!(r.host, "h:80");
            assert_eq!(r.body, b"{}");
            assert_eq!(r.header.get("authorization"), Some("Bearer xxx"));
        }
        _ => panic!("no request"),
    }
}

#[test]
fn new_request_rejects_bad_method() {
    assert!(new_request("DELETE", "http://x/y", None).is_err());
}

#[test]
fn new_request_rejects_non_http_scheme() {
    assert!(new_request(METHOD_GET, "https://x/y", None).is_err());
    assert!(new_request(METHOD_GET, "ftp://x/y", None).is_err());
    assert!(new_request(METHOD_GET, "x/y", None).is_err());
    assert_eq!(
        new_request(METHOD_GET, "x\"y", None).unwrap_err(),
        "httpx: only http:// URLs supported, got \"x\\\"y\""
    );
}

#[test]
fn split_url_cases() {
    let cases = [
        ("http://x", "x:80", "/"),
        ("http://x:8080/api", "x:8080", "/api"),
        (
            "http://1.2.3.4:8123/api/dooraccess/abc",
            "1.2.3.4:8123",
            "/api/dooraccess/abc",
        ),
        ("http://x/api?a=1&b=2", "x:80", "/api?a=1&b=2"),
    ];
    for (url, want_host, want_target) in cases {
        let (host, target) = split_url(url).unwrap();
        assert_eq!(host, want_host, "url={url}");
        assert_eq!(target, want_target, "url={url}");
    }
    for bad in ["https://x/y", "http://", "x"] {
        assert!(split_url(bad).is_err(), "url={bad}");
    }
}

#[test]
fn client_chunked_response_decoded() {
    let (_, body) = response(
        "HTTP/1.1 200 OK\r\nTransfer-Encoding: chunked\r\n\r\n5\r\nhello\r\n3\r\n123\r\n0\r\n\r\n",
    );
    assert_eq!(String::from_utf8_lossy(&body), "hello123");
}

#[test]
fn a_response_that_ends_early_is_an_error() {
    match read_response(b"", true, "short") {
        ResponseRead::Fault(e) => assert_eq!(
            response_failure(&e),
            "httpx: server closed connection before sending response"
        ),
        _ => panic!("no error"),
    }
    assert_eq!(
        response_failure(&ResponseError {
            unexpected_eof: false,
            msg: "x".into()
        }),
        "httpx: read response: x"
    );
    assert!(matches!(
        read_response(b"HTTP/1.1 200 OK\r\n", false, "short"),
        ResponseRead::More
    ));
    assert!(matches!(
        read_response(
            b"HTTP/1.1 200 OK\r\nTransfer-Encoding: chunked\r\n\r\nzz\r\n",
            true,
            "short"
        ),
        ResponseRead::Fault(_)
    ));
}

#[test]
fn dialing_goes_on_until_the_time_is_over() {
    assert_eq!(after_dial_round(None, 0), DialNext::Fail);
    assert_eq!(after_dial_round(Some(5), 4), DialNext::Retry);
    assert_eq!(after_dial_round(Some(5), 5), DialNext::TimedOut);
    assert_eq!(Client { timeout: Some(0) }.limit(), None);
}

#[test]
fn read_header_timeout_tighter_than_read_timeout() {
    let ms = 1_000_000;
    // A head that is not complete after 200 ms is cut off by its own limit of 100 ms.
    assert!(matches!(
        read_request(b"GET / HTTP/1.1\r\n", false),
        RequestRead::More {
            headers_done: false
        }
    ));
    assert_eq!(
        refresh_read_timeout(Some(2000 * ms), Some(100 * ms), false, 200 * ms),
        Wait::Expired
    );
    assert_eq!(
        refresh_read_timeout(Some(2000 * ms), Some(100 * ms), false, 40 * ms),
        Wait::For(60 * ms)
    );
}

#[test]
fn read_timeout_is_whole_request_deadline() {
    let ms = 1_000_000;
    let head = b"POST / HTTP/1.1\r\nHost: x\r\nContent-Length: 4\r\n\r\n".to_vec();
    assert!(matches!(
        read_request(&head, false),
        RequestRead::More { headers_done: true }
    ));
    assert_eq!(
        refresh_read_timeout(Some(1500 * ms), Some(200 * ms), true, 350 * ms),
        Wait::For(1150 * ms)
    );
    let mut all = head;
    all.extend_from_slice(b"data");
    assert!(matches!(read_request(&all, false), RequestRead::Done(_)));
}

#[test]
fn write_timeout_zero_allows_slow_write() {
    assert_eq!(write_limit(None), None);
    assert_eq!(write_limit(Some(0)), None);
    assert_eq!(io_wait(write_limit(Some(0)), u64::MAX), Wait::Unlimited);
    assert_eq!(io_wait(write_limit(Some(7)), 7), Wait::Expired);
    assert_eq!(io_wait(Some(7), 1), Wait::For(1_000_000));
}

#[test]
fn server_rules() {
    assert_eq!(listen_addr(""), ":80");
    assert_eq!(listen_addr("1.2.3.4:5"), "1.2.3.4:5");
    assert_eq!(after_accept_failure(true, true), AcceptNext::Closed);
    assert_eq!(after_accept_failure(false, true), AcceptNext::Again);
    assert_eq!(after_accept_failure(false, false), AcceptNext::Fail);
    assert_eq!(shutdown_step(0, Some(1), 9), Some(Ok(())));
    assert_eq!(
        shutdown_step(1, Some(1), 9),
        Some(Err(ShutdownError::Timeout))
    );
    assert_eq!(shutdown_step(1, None, 9), None);
    assert_eq!(ServerClosedError.message(), "httpx: server closed");
    assert_eq!(ShutdownError::Timeout.message(), "shutdown timeout");
    assert_eq!(
        String::from_utf8(write_protocol_error(&HttpProtocolError::new(0, "x"))).unwrap(),
        "HTTP/1.1 400 Bad Request\r\nConnection: close\r\nContent-Length: 0\r\n\r\n"
    );
    assert!(handler_failed().starts_with(b"HTTP/1.1 500 "));
    assert_eq!(status_text(404), "Not Found");
    assert_eq!(status_text(999), "");
}

#[test]
fn request_faults() {
    let fault = |raw: &str| match read_request(raw.as_bytes(), true) {
        RequestRead::Fault(ReadRequestError::Protocol(e)) => e.status,
        _ => panic!("{raw}"),
    };
    assert_eq!(fault("nonsense\r\n\r\n"), 400);
    assert_eq!(
        fault("GET / HTTP/1.1\r\nHost: x\r\nno colon here\r\n\r\n"),
        400
    );
    let long = format!("GET /{} HTTP/1.1\r\n\r\n", "a".repeat(9000));
    assert_eq!(fault(&long), 414);
    let many = format!("GET / HTTP/1.1\r\n{}\r\n", "A: b\r\n".repeat(65));
    assert_eq!(fault(&many), 431);
    let big = "POST / HTTP/1.1\r\nHost: x\r\nContent-Length: 1048577\r\n\r\n";
    assert_eq!(fault(big), 413);
    assert!(matches!(
        read_request(b"", true),
        RequestRead::Fault(ReadRequestError::Eof)
    ));
}

#[test]
fn lines_of_requests_and_responses() {
    assert_eq!(
        parse_request_line("GET /x HTTP/1.1").unwrap(),
        ("GET", "/x", "HTTP/1.1")
    );
    assert!(parse_request_line("GET /x").is_err());
    assert_eq!(parse_status_line("HTTP/1.1 204 No Content").unwrap(), 204);
    assert!(parse_status_line("nonsense").is_err());
    assert_eq!(split_path_query("/a?b?c"), ("/a", "b?c"));
    assert_eq!(split_path_query("/a"), ("/a", ""));
}

#[test]
fn header_names_are_canonical() {
    assert_eq!(canonical_mime_header_key("content-TYPE"), "Content-Type");
    assert_eq!(canonical_mime_header_key("éÀ-ß"), "Éà-SS");
    let mut h = Header::new();
    h.add("x-a", "1");
    h.add("X-A", "2");
    assert_eq!(h.get("X-a"), Some("1"));
    assert_eq!(h.values("x-A").unwrap().len(), 2);
    h.set("x-a", "3");
    assert_eq!(h.values("x-A").unwrap().len(), 1);
    h.del("X-A");
    assert_eq!(h.get("X-a"), None);
}

/// Everything that is written for a response by `f`.
fn written(f: impl FnOnce(&mut ResponseWriterImpl)) -> String {
    let mut w = ResponseWriterImpl::new();
    f(&mut w);
    String::from_utf8(w.finish()).unwrap()
}

#[test]
fn responses_on_the_wire() {
    assert_eq!(
        written(|w| {
            w.set_header("content-length", "2");
            w.write_header(STATUS_OK);
            w.write(b"ok");
        }),
        "HTTP/1.1 200 OK\r\nConnection: close\r\nContent-Length: 2\r\n\r\nok"
    );
    let chunked = written(|w| {
        w.write(b"hello");
        w.write(b"");
        w.write(b" you");
    });
    assert!(chunked.contains("Transfer-Encoding: chunked\r\n"));
    assert!(chunked.ends_with("\r\n\r\n5\r\nhello\r\n4\r\n you\r\n0\r\n\r\n"));
    let (status, body) = response(&chunked);
    assert_eq!(status, 200);
    assert_eq!(body, b"hello you");
}

#[test]
fn routes_prefer_the_exact_then_the_longest() {
    let mut m: ServeMux<i32> = ServeMux::new();
    m.handle("/a", 1);
    m.handle("/a/", 2);
    m.handle("/a/b/", 3);
    assert_eq!(m.match_handler("/a"), Some(&1));
    assert_eq!(m.match_handler("/a/x"), Some(&2));
    assert_eq!(m.match_handler("/a/b/x"), Some(&3));
    assert_eq!(m.match_handler("/b"), None);
    assert_eq!(request_with_path("/q").url.path, "/q");
    assert!(written(|w| http404(w)).starts_with("HTTP/1.1 404 Not Found\r\n"));
}

#[test]
fn a_request_without_more_bytes_stays_what_it_is() {
    let raw = b"GET /p HTTP/1.1\r\nHost: x\r\n\r\nrest";
    let path = |r: RequestRead| match r {
        RequestRead::Done(Request { url, .. }) => url.path,
        _ => panic!("no request"),
    };
    assert_eq!(path(read_request(&raw[..raw.len() - 4], false)), "/p");
    assert_eq!(path(read_request(raw, false)), "/p");
}

#[test]
fn written_json_is_accepted() {
    let mut m = JsonMap::new();
    m.insert("k\"\\".into(), JsonValue::Number(-90));
    m.insert("".into(), JsonValue::Array(vec![JsonValue::Null, JsonValue::Bool(true)]));
    let v = JsonValue::Array(vec![
        JsonValue::Dict(m),
        JsonValue::Struct(vec![("é\u{1}".into(), JsonValue::String("\u{2028}<\n>".into()))]),
        JsonValue::Number(0),
        JsonValue::Array(vec![]),
    ]);
    for opts in [JsonOptions::marshal(), JsonOptions::encode()] {
        assert!(json_syntax_check(&encode_value(&v, opts)).is_ok());
        let record = encode_struct(&[("a", JsonValue::Bool(false)), ("b", JsonValue::Null)], opts);
        assert!(json_syntax_check(&record).is_ok());
        assert!(json_syntax_check(&encode_map(&JsonMap::new(), opts)).is_ok());
    }
}

#[test]
fn a_response_without_a_length_is_sent_in_chunks() {
    let mut w = ResponseWriterImpl::new();
    assert_eq!((w.status(), w.is_chunked()), (0, false));
    w.set_header("X-Note", "one");
    w.write_header(503);
    assert_eq!((w.status(), w.is_chunked()), (503, true));
    w.write(&[0, 10, 13, 255]);
    match read_response(&w.finish(), false, "short") {
        ResponseRead::Done(r) => {
            assert_eq!(r.status_code, 503);
            assert_eq!(r.header.get("x-note"), Some("one"));
            assert_eq!(r.header.get("Connection"), Some("close"));
            assert_eq!(r.body, [0, 10, 13, 255]);
        }
        _ => panic!("no response"),
    }
}

#[test]
fn canonical_names_stay_as_they_are() {
    for name in ["x-aB--c", "-", "HOST", "content-length"] {
        let once = canonical_mime_header_key(name);
        assert_eq!(canonical_mime_header_key(&once), once);
    }
}

#[test]
fn client_timeout_fails_fast() {
    let ms = 1_000_000;
    let c = Client {
        timeout: Some(200 * ms),
    };
    assert_eq!(io_wait(c.limit(), 0), Wait::For(200 * ms));
    assert_eq!(io_wait(c.limit(), 200 * ms), Wait::Expired);
    assert_eq!(after_dial_round(c.limit(), 200 * ms), DialNext::TimedOut);
}

#[test]
fn client_context_cancel() {
    assert!(unless_cancelled(false).is_ok());
    assert_eq!(
        unless_cancelled(true).unwrap_err(),
        "httpx: request cancelled"
    );
}

#[test]
fn bytes_that_are_no_text_are_replaced() {
    match read_request(b"G\xffT / HTTP/1.1\r\n\r\n", false) {
        RequestRead::Fault(ReadRequestError::Protocol(e)) => {
            assert_eq!(e.status, 405);
            assert_eq!(e.msg, "unsupported method: G\u{fffd}T");
        }
        _ => panic!("no fault"),
    }
}

#[test]
fn written_json_stands_on_one_line() {
    let all: String = (0u32..0x80).filter_map(char::from_u32).collect();
    for opts in [JsonOptions::marshal(), JsonOptions::encode()] {
        let value = JsonValue::Array(vec![
            JsonValue::String(all.clone()),
            JsonValue::Array(vec![]),
            JsonValue::Number(-7),
        ]);
        let out = encode_struct(&[("b<&>", JsonValue::Null), ("a", value)], opts);
        let end = if opts.trailing_newline {
            assert_eq!(out.last(), Some(&b'\n'));
            out.len() - 1
        } else {
            out.len()
        };
        assert!(out[..end].iter().all(|b| *b >= 0x20));
        if opts.escape_html {
            assert!(!out.iter().any(|b| b"<>&".contains(b)));
        }
        let s = String::from_utf8(out.clone()).unwrap();
        assert!(s.contains(",[],-7]"));
        assert!(s.find("null").unwrap() < s.find("\"a\":").unwrap());
        assert!(json_syntax_check(&out).is_ok());
    }
}

#[test]
fn bodies_over_the_limit_are_refused() {
    let head = b"HTTP/1.1 200 OK\r\nTransfer-Encoding: chunked\r\n\r\n";
    let half = vec![b'x'; 524_288];
    for (more, fits) in [(0usize, true), (1, false)] {
        let mut wire = head.to_vec();
        let mut sent = Vec::new();
        for piece in [&half[..], &half[..], &half[..more]] {
            if !piece.is_empty() {
                write_chunk(&mut wire, piece);
                sent.extend_from_slice(piece);
            }
        }
        wire.extend_from_slice(b"0\r\n\r\n");
        match read_response(&wire, true, "short") {
            ResponseRead::Done(r) => {
                assert!(fits);
                assert_eq!(r.status_code, 200);
                assert!(r.body == sent);
            }
            ResponseRead::Fault(e) => {
                assert!(!fits && !e.unexpected_eof);
                assert_eq!(
                    e.msg,
                    "chunked body cumulative 1048577 exceeds 1048576 max"
                );
            }
            ResponseRead::More => panic!("no response"),
        }
    }
}

#[test]
fn defaults_are_empty() {
    assert_eq!(Client::default().timeout, None);
    assert_eq!(Url::default().string(), "");
    assert!(Header::default().get("Host").is_none());
    assert!(ServeMux::<u8>::default().match_handler("/").is_none());
}

#[test]
fn a_response_with_nothing_in_it() {
    let mut w = ResponseWriterImpl::new();
    let out = w.finish();
    assert_eq!((w.status(), w.is_chunked()), (200, true));
    assert_eq!(
        out,
        b"HTTP/1.1 200 OK\r\nConnection: close\r\nTransfer-Encoding: chunked\r\n\r\n0\r\n\r\n"
    );
}

/// Answers every request with its path as an error.
struct Echo;
impl Handler for Echo {
    fn answers(&self, _r: RequestView, _before: Reply, _after: Reply) -> bool {
        unreachable!()
    }

    fn serve_http<W: ResponseWriter>(&self, w: &mut W, r: &Request) {
        error_json(w, 400, &r.url.path);
    }
}

#[test]
fn answers_reach_the_client() {
    let out = respond(&Echo, &request_with_path("/a<b"));
    let head = "HTTP/1.1 400 Bad Request\r\nConnection: close\r\nContent-Length: 21\r\n\
                Content-Type: application/json\r\n\r\n";
    let body = "{\"error\":\"/a\\u003cb\"}";
    assert_eq!(String::from_utf8(out.clone()).unwrap(), format!("{head}{body}"));
    match read_response(&out, false, "short") {
        ResponseRead::Done(r) => {
            assert_eq!(r.status_code, 400);
            assert_eq!(r.header.get("Content-Type"), Some("application/json"));
            assert_eq!(r.body, body.as_bytes());
        }
        _ => panic!("no response"),
    }
}
