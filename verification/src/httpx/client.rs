//! Sending requests.

use vstd::prelude::*;
use vstd::slice::slice_subrange;
use vstd::string::*;
use vstd::utf8::*;

use super::parse::ResponseError;
use super::response::push_header;
use super::{Header, METHOD_GET, METHOD_POST};
use crate::text;
use crate::text::{chars_of, chars_start_with, debug_string, dec_string, find_char, push_bytes,
    str_eq, string_of};

verus! {

/// A client with an upper limit, in nanoseconds, on dialing, sending and receiving together;
/// none and zero mean no limit.
#[derive(Debug, Clone, Copy, PartialEq, Eq)]
pub struct Client {
    pub timeout: Option<u64>,
}

impl Default for Client {
    fn default() -> (c: Self)
        ensures
            c.timeout is None,
    {
        Client { timeout: None }
    }
}

/// A request to send.
#[derive(Debug)]
pub struct ClientRequest {
    pub method: String,
    pub url: String,
    pub header: Header,
    pub body: Vec<u8>,
}

/// What is wrong with the method or URL of a request.
pub open spec fn request_refused(method: Seq<char>, url: Seq<char>) -> Option<Seq<char>> {
    if method != METHOD_GET@ && method != METHOD_POST@ {
        Some("httpx: unsupported method "@ + text::debug_text(method))
    } else if !text::has_prefix(url, "http://"@) {
        Some("httpx: only http:// URLs supported, got "@ + text::debug_text(url))
    } else {
        None
    }
}

impl ClientRequest {
    /// Gives a header field one value.
    pub fn set_header(&mut self, key: &str, value: &str)
        ensures
            final(self).header@ == old(self).header@.insert(
                super::header::canonical(key@),
                seq![value@],
            ),
            final(self).method == old(self).method,
            final(self).url == old(self).url,
            final(self).body == old(self).body,
    {
        self.header.set(key, value);
    }
}

fn fault(msg: &str, subject: &str) -> (out: String)
    ensures
        out@ == msg@ + text::debug_text(subject@),
{
    let mut out = msg.to_owned();
    out.append(debug_string(subject).as_str());
    out
}

/// A request without header fields, by `GET` or `POST` and to an `http://` URL.
pub fn new_request(method: &str, url: &str, body: Option<&[u8]>) -> (r: Result<
    ClientRequest,
    String,
>)
    ensures
        match r {
            Ok(req) => {
                &&& request_refused(method@, url@) is None
                &&& req.method@ == method@
                &&& req.url@ == url@
                &&& req.header@ == Map::<Seq<char>, Seq<Seq<char>>>::empty()
                &&& req.body@ == match body {
                    Some(b) => b@,
                    None => Seq::empty(),
                }
            },
            Err(m) => request_refused(method@, url@) == Some(m@),
        },
{
    if !str_eq(method, METHOD_GET) && !str_eq(method, METHOD_POST) {
        return Err(fault("httpx: unsupported method ", method));
    }
    if !chars_start_with(chars_of(url).as_slice(), "http://") {
        return Err(fault("httpx: only http:// URLs supported, got ", url));
    }
    let body = match body {
        Some(b) => vstd::slice::slice_to_vec(b),
        None => Vec::new(),
    };
    Ok(
        ClientRequest {
            method: method.to_owned(),
            url: url.to_owned(),
            header: Header::new(),
            body,
        },
    )
}

/// Host with port, and target, of a URL. The port is 80 and the target `/` where the URL
/// does not say.
pub open spec fn url_parts(u: Seq<char>) -> Result<(Seq<char>, Seq<char>), Seq<char>> {
    if !text::has_prefix(u, "http://"@) {
        Err("httpx: only http:// URLs supported, got "@ + text::debug_text(u))
    } else {
        let rest = u.skip("http://"@.len() as int);
        let (host, target) = match text::find(rest, '/') {
            Some(i) => (rest.take(i), rest.skip(i)),
            None => (rest, "/"@),
        };
        if host.len() == 0 {
            Err("httpx: empty host in URL"@)
        } else if text::find(host, ':') is Some {
            Ok((host, target))
        } else {
            Ok((host + ":80"@, target))
        }
    }
}

/// Splits `http://host[:port]/path[?query]` into `host:port` and `/path?query`.
pub fn split_url(raw_url: &str) -> (r: Result<(String, String), String>)
    ensures
        match r {
            Ok((h, t)) => url_parts(raw_url@) == Ok::<_, Seq<char>>((h@, t@)),
            Err(m) => url_parts(raw_url@) == Err::<(Seq<char>, Seq<char>), _>(m@),
        },
{
    let cs = chars_of(raw_url);
    if !chars_start_with(cs.as_slice(), "http://") {
        return Err(fault("httpx: only http:// URLs supported, got ", raw_url));
    }
    let n: usize = "http://".unicode_len();
    let rest = slice_subrange(cs.as_slice(), n, cs.len());
    assert(rest@ =~= raw_url@.skip(n as int));
    let (host, target) = match find_char(rest, '/') {
        Some(i) => {
            assert(rest@.subrange(0, i as int) =~= rest@.take(i as int));
            assert(rest@.subrange(i as int, rest@.len() as int) =~= rest@.skip(i as int));
            (slice_subrange(rest, 0, i), string_of(slice_subrange(rest, i, rest.len())))
        },
        None => (rest, "/".to_owned()),
    };
    if host.len() == 0 {
        return Err("httpx: empty host in URL".to_owned());
    }
    let mut hostport = string_of(host);
    if find_char(host, ':').is_none() {
        hostport.append(":80");
    }
    Ok((hostport, target))
}

/// The header fields of a request as it is sent.
pub open spec fn sent_fields(
    h: Map<Seq<char>, Seq<Seq<char>>>,
    hostport: Seq<char>,
    body_len: nat,
) -> Map<Seq<char>, Seq<Seq<char>>> {
    h.insert(super::header::canonical("Host"@), seq![hostport]).insert(
        super::header::canonical("Connection"@),
        seq!["close"@],
    ).insert(super::header::canonical("Content-Length"@), seq![text::dec(body_len)])
}

/// The bytes of a request as it is sent.
pub open spec fn request_bytes(
    method: Seq<char>,
    target: Seq<char>,
    h: Map<Seq<char>, Seq<Seq<char>>>,
    body: Seq<u8>,
) -> Seq<u8> {
    encode_utf8(
        method + " "@ + target + " HTTP/1.1\r\n"@ + super::response::header_text(h),
    ) + body
}

/// The bytes of a request with the given header fields.
pub fn write_request(method: &str, target: &str, header: &Header, body: &[u8]) -> (out: Vec<u8>)
    ensures
        out@ == request_bytes(method@, target@, header@, body@),
{
    let mut head = method.to_owned();
    head.append(" ");
    head.append(target);
    head.append(" HTTP/1.1\r\n");
    push_header(&mut head, header);
    let mut out: Vec<u8> = Vec::new();
    push_bytes(&mut out, head.as_str());
    let ghost before = out@;
    out.extend_from_slice(body);
    assert(out@ =~= before + body@);
    out
}

impl Client {
    /// The limit where there is one.
    pub fn limit(&self) -> (r: Option<u64>)
        ensures
            r == match self.timeout {
                Some(t) => if t > 0 {
                    Some(t)
                } else {
                    None
                },
                None => None,
            },
    {
        match self.timeout {
            Some(t) => if t > 0 {
                Some(t)
            } else {
                None
            },
            None => None,
        }
    }

    /// Where to send a request, and what. The host, that the connection is to be closed, and
    /// the length of the body are set in the header.
    pub fn prepare(&self, req: &ClientRequest) -> (r: Result<(String, Vec<u8>), String>)
        requires
            req.body@.len() <= i64::MAX,
        ensures
            match (r, url_parts(req.url@)) {
                (Ok((hostport, bytes)), Ok((h, t))) => hostport@ == h && bytes@ == request_bytes(
                    req.method@,
                    t,
                    sent_fields(req.header@, h, req.body@.len()),
                    req.body@,
                ),
                (Err(m), Err(f)) => m@ == f,
                _ => false,
            },
    {
        let (hostport, target) = match split_url(req.url.as_str()) {
            Ok(p) => p,
            Err(m) => return Err(m),
        };
        let mut header = req.header.copy();
        header.set("Host", hostport.as_str());
        header.set("Connection", "close");
        header.set("Content-Length", dec_string(req.body.len() as i64).as_str());
        let bytes = write_request(
            req.method.as_str(),
            target.as_str(),
            &header,
            req.body.as_slice(),
        );
        Ok((hostport, bytes))
    }
}

/// The text shown when no response came.
pub fn response_failure(e: &ResponseError) -> (out: String)
    ensures
        out@ == if e.unexpected_eof {
            "httpx: server closed connection before sending response"@
        } else {
            "httpx: read response: "@ + e.msg@
        },
{
    if e.unexpected_eof {
        return "httpx: server closed connection before sending response".to_owned();
    }
    let mut out = "httpx: read response: ".to_owned();
    out.append(e.msg.as_str());
    out
}

/// Lets a request go on unless it was cancelled. It is asked before the request begins, before each
/// round of dialing, and once the request was sent.
pub fn unless_cancelled(cancelled: bool) -> (r: Result<(), String>)
    ensures
        match r {
            Ok(_) => !cancelled,
            Err(m) => cancelled && m@ == "httpx: request cancelled"@,
        },
{
    if cancelled {
        Err("httpx: request cancelled".to_owned())
    } else {
        Ok(())
    }
}

/// What to do after all addresses of a host were tried in vain.
#[derive(Debug, Clone, Copy, PartialEq, Eq, Structural)]
pub enum DialNext {
    /// Give up, as there is no time limit to wait for.
    Fail,
    /// Give up, as the time is over.
    TimedOut,
    /// Wait a little and try them again.
    Retry,
}

/// Addresses are tried again until the time limit is over; without one there is one round.
pub fn after_dial_round(limit: Option<u64>, elapsed: u64) -> (r: DialNext)
    ensures
        r == match limit {
            None => DialNext::Fail,
            Some(t) => if elapsed >= t {
                DialNext::TimedOut
            } else {
                DialNext::Retry
            },
        },
{
    match limit {
        None => DialNext::Fail,
        Some(t) => if elapsed >= t {
            DialNext::TimedOut
        } else {
            DialNext::Retry
        },
    }
}

} // verus!
