//! Plain HTTP/1.1: one request and one response to a connection, no encryption, `GET` and
//! `POST` only.

use vstd::prelude::*;
use vstd::string::*;

use crate::text;

pub mod client;
pub mod exchange;
pub mod header;
pub mod json;
pub mod mux;
pub mod parse;
pub mod response;
pub mod server;

pub use header::{canonical_mime_header_key, Header};

verus! {

pub const METHOD_GET: &'static str = "GET";

pub const METHOD_POST: &'static str = "POST";

pub const STATUS_OK: u16 = 200;

pub const STATUS_BAD_REQUEST: u16 = 400;

pub const STATUS_NOT_FOUND: u16 = 404;

pub const STATUS_METHOD_NOT_ALLOWED: u16 = 405;

pub const STATUS_PAYLOAD_TOO_LARGE: u16 = 413;

pub const STATUS_URI_TOO_LONG: u16 = 414;

pub const STATUS_UPGRADE_REQUIRED: u16 = 426;

pub const STATUS_REQUEST_HEADER_TOO_BIG: u16 = 431;

pub const STATUS_INTERNAL_SERVER_ERROR: u16 = 500;

pub const STATUS_BAD_GATEWAY: u16 = 502;

/// The reason phrase of a status code, empty where there is none.
pub open spec fn reason(code: u16) -> Seq<char> {
    if code == 200 {
        "OK"@
    } else if code == 400 {
        "Bad Request"@
    } else if code == 401 {
        "Unauthorized"@
    } else if code == 403 {
        "Forbidden"@
    } else if code == 404 {
        "Not Found"@
    } else if code == 405 {
        "Method Not Allowed"@
    } else if code == 408 {
        "Request Timeout"@
    } else if code == 413 {
        "Payload Too Large"@
    } else if code == 414 {
        "URI Too Long"@
    } else if code == 415 {
        "Unsupported Media Type"@
    } else if code == 417 {
        "Expectation Failed"@
    } else if code == 426 {
        "Upgrade Required"@
    } else if code == 431 {
        "Request Header Fields Too Large"@
    } else if code == 500 {
        "Internal Server Error"@
    } else if code == 501 {
        "Not Implemented"@
    } else if code == 502 {
        "Bad Gateway"@
    } else if code == 503 {
        "Service Unavailable"@
    } else if code == 504 {
        "Gateway Timeout"@
    } else {
        ""@
    }
}

/// The reason phrase of a status code, empty where there is none.
pub fn status_text(code: u16) -> (r: &'static str)
    ensures
        r@ == reason(code),
{
    match code {
        200 => "OK",
        400 => "Bad Request",
        401 => "Unauthorized",
        403 => "Forbidden",
        404 => "Not Found",
        405 => "Method Not Allowed",
        408 => "Request Timeout",
        413 => "Payload Too Large",
        414 => "URI Too Long",
        415 => "Unsupported Media Type",
        417 => "Expectation Failed",
        426 => "Upgrade Required",
        431 => "Request Header Fields Too Large",
        500 => "Internal Server Error",
        501 => "Not Implemented",
        502 => "Bad Gateway",
        503 => "Service Unavailable",
        504 => "Gateway Timeout",
        _ => "",
    }
}

// ---------------------------------------------------------------------------
// Requests
// ---------------------------------------------------------------------------

/// Path and query of a request.
#[derive(Debug, Clone, PartialEq, Eq)]
pub struct Url {
    pub path: String,
    pub raw_query: String,
}

/// The target as it stands in a request line.
pub open spec fn target_text(path: Seq<char>, query: Seq<char>) -> Seq<char> {
    if query.len() == 0 {
        path
    } else {
        path + "?"@ + query
    }
}

impl Default for Url {
    fn default() -> (u: Self)
        ensures
            u.path@.len() == 0,
            u.raw_query@.len() == 0,
    {
        Url { path: String::new(), raw_query: String::new() }
    }
}

impl Url {
    /// Path and query with a `?` between them, or the path alone.
    pub fn string(&self) -> (out: String)
        ensures
            out@ == target_text(self.path@, self.raw_query@),
    {
        let mut out = self.path.clone();
        if !self.raw_query.as_str().is_empty() {
            out.append("?");
            out.append(self.raw_query.as_str());
        }
        out
    }
}

/// A request that was read.
#[derive(Debug)]
pub struct Request {
    pub method: String,
    pub url: Url,
    pub header: Header,
    pub body: Vec<u8>,
    pub host: String,
    pub remote_addr: String,
    pub content_length: i64,
}

/// `Request` with its texts as sequences.
pub struct RequestView {
    pub method: Seq<char>,
    pub path: Seq<char>,
    pub raw_query: Seq<char>,
    pub header: Map<Seq<char>, Seq<Seq<char>>>,
    pub body: Seq<u8>,
    pub host: Seq<char>,
    pub remote_addr: Seq<char>,
    pub content_length: int,
}

impl View for Request {
    type V = RequestView;

    open spec fn view(&self) -> RequestView {
        RequestView {
            method: self.method@,
            path: self.url.path@,
            raw_query: self.url.raw_query@,
            header: self.header@,
            body: self.body@,
            host: self.host@,
            remote_addr: self.remote_addr@,
            content_length: self.content_length as int,
        }
    }
}

// ---------------------------------------------------------------------------
// Responses
// ---------------------------------------------------------------------------

/// What went out at the head of a response.
pub struct Sent {
    pub status: u16,
    pub header: Map<Seq<char>, Seq<Seq<char>>>,
    /// The body is sent in chunks, as its length was not given.
    pub chunked: bool,
}

/// A response while it is being written.
pub struct Reply {
    /// The fields set so far.
    pub header: Map<Seq<char>, Seq<Seq<char>>>,
    /// The head, once it went out.
    pub sent: Option<Sent>,
    /// The non-empty pieces of the body, in order.
    pub pieces: Seq<Seq<u8>>,
}

/// A response of which nothing is written yet.
pub open spec fn blank_reply() -> Reply {
    Reply { header: Map::empty(), sent: None, pieces: Seq::empty() }
}

impl Reply {
    /// A field is given one value.
    pub open spec fn with_field(self, key: Seq<char>, value: Seq<char>) -> Reply {
        Reply { header: self.header.insert(header::canonical(key), seq![value]), ..self }
    }

    /// The head goes out, unless it did before. The connection is to be closed; without a
    /// length the body is sent in chunks.
    pub open spec fn begun(self, status: u16) -> Reply {
        if self.sent is Some {
            self
        } else {
            let closing = self.with_field("Connection"@, "close"@);
            let chunked = header::field(closing.header, "Content-Length"@) is None;
            let ready = if chunked {
                closing.with_field("Transfer-Encoding"@, "chunked"@)
            } else {
                closing
            };
            Reply { sent: Some(Sent { status, header: ready.header, chunked }), ..ready }
        }
    }

    /// A piece of the body is written, behind a head with status 200 where none went out.
    pub open spec fn written(self, data: Seq<u8>) -> Reply {
        let r = self.begun(STATUS_OK);
        if data.len() == 0 {
            r
        } else {
            Reply { pieces: r.pieces.push(data), ..r }
        }
    }
}

/// Where a handler writes its response.
pub trait ResponseWriter {
    /// What was written so far.
    spec fn reply(&self) -> Reply;

    /// Gives a header field one value.
    fn set_header(&mut self, key: &str, value: &str)
        ensures
            final(self).reply() == old(self).reply().with_field(key@, value@),
    ;

    /// Sends the head.
    fn write_header(&mut self, status: u16)
        ensures
            final(self).reply() == old(self).reply().begun(status),
    ;

    /// Sends a piece of the body.
    fn write(&mut self, data: &[u8]) -> (n: usize)
        ensures
            final(self).reply() == old(self).reply().written(data@),
            n == data@.len(),
    ;

    /// Sends the head, if it did not go out yet.
    fn flush(&mut self)
        ensures
            final(self).reply() == old(self).reply().begun(STATUS_OK),
    ;
}

/// Answers requests.
pub trait Handler {
    /// Whether `after` is a right answer to `r` for a response that stood at `before`.
    spec fn answers(&self, r: RequestView, before: Reply, after: Reply) -> bool;

    fn serve_http<W: ResponseWriter>(&self, w: &mut W, r: &Request)
        ensures
            self.answers(r@, old(w).reply(), final(w).reply()),
    ;
}

// ---------------------------------------------------------------------------
// Errors
// ---------------------------------------------------------------------------

/// A request that breaks the protocol, with the status to answer it.
#[derive(Debug, Clone, PartialEq, Eq)]
pub struct HttpProtocolError {
    pub status: u16,
    pub msg: String,
}

/// The text shown for a protocol error.
pub open spec fn protocol_error_text(status: u16, msg: Seq<char>) -> Seq<char> {
    "httpx: "@ + msg + " (status="@ + text::dec(status as nat) + ")"@
}

impl HttpProtocolError {
    pub fn new(status: u16, msg: &str) -> (e: Self)
        ensures
            e.status == status,
            e.msg@ == msg@,
    {
        HttpProtocolError { status, msg: msg.to_owned() }
    }

    /// The text shown for the error.
    pub fn message(&self) -> (out: String)
        ensures
            out@ == protocol_error_text(self.status, self.msg@),
    {
        let mut out = "httpx: ".to_owned();
        out.append(self.msg.as_str());
        out.append(" (status=");
        text::push_dec(&mut out, self.status as u64);
        out.append(")");
        out
    }
}

/// Why no request was read.
#[derive(Debug, Clone, PartialEq, Eq)]
pub enum ReadRequestError {
    Protocol(HttpProtocolError),
    /// The connection ended.
    Eof,
    /// Reading failed, with the description of the failure.
    Io(String),
}

/// `ReadRequestError` with its texts as sequences.
pub enum ReadFaultView {
    Protocol { status: u16, msg: Seq<char> },
    Eof,
    Io(Seq<char>),
}

impl View for ReadRequestError {
    type V = ReadFaultView;

    open spec fn view(&self) -> ReadFaultView {
        match self {
            ReadRequestError::Protocol(e) => ReadFaultView::Protocol {
                status: e.status,
                msg: e.msg@,
            },
            ReadRequestError::Eof => ReadFaultView::Eof,
            ReadRequestError::Io(m) => ReadFaultView::Io(m@),
        }
    }
}

/// The text shown for a failed read.
pub open spec fn read_fault_text(e: ReadFaultView) -> Seq<char> {
    match e {
        ReadFaultView::Protocol { status, msg } => protocol_error_text(status, msg),
        ReadFaultView::Eof => "unexpected EOF"@,
        ReadFaultView::Io(m) => m,
    }
}

impl ReadRequestError {
    /// The text shown for the error.
    pub fn message(&self) -> (out: String)
        ensures
            out@ == read_fault_text(self@),
    {
        match self {
            ReadRequestError::Protocol(e) => e.message(),
            ReadRequestError::Eof => "unexpected EOF".to_owned(),
            ReadRequestError::Io(m) => m.clone(),
        }
    }
}

} // verus!
