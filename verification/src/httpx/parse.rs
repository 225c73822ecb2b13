//! Reading requests and responses.
//!
//! Bytes arrive over time, so each function looks at those received so far and says whether
//! it needs more of them. While the connection may still deliver, `ended` is false.

use vstd::prelude::*;
use vstd::slice::{slice_subrange, slice_to_vec};
use vstd::string::*;
use vstd::utf8::*;

use super::header;
use super::{canonical_mime_header_key, Header, HttpProtocolError, ReadFaultView, ReadRequestError,
    Request, RequestView, Url, METHOD_GET, METHOD_POST, STATUS_BAD_GATEWAY, STATUS_BAD_REQUEST,
    STATUS_METHOD_NOT_ALLOWED, STATUS_PAYLOAD_TOO_LARGE, STATUS_REQUEST_HEADER_TOO_BIG,
    STATUS_UPGRADE_REQUIRED, STATUS_URI_TOO_LONG};
use crate::text;
use crate::text::{chars_eq_no_case, chars_of, chars_start_with, debug_string, find_byte, find_char,
    parse_hex_i64, parse_i64, parse_u16, push_dec, split_chars, str_eq, string_of,
    trim_chars, utf8_lossy};

verus! {

pub const MAX_REQUEST_LINE_BYTES: usize = 8192;

pub const MAX_HEADER_BYTES: usize = 16384;

pub const MAX_HEADER_COUNT: usize = 64;

pub const MAX_BODY_BYTES: i64 = 1048576;

/// Longest line that gives the size of a chunk.
pub const MAX_CHUNK_LINE_BYTES: usize = 256;

// ---------------------------------------------------------------------------
// Lines
// ---------------------------------------------------------------------------

/// A line of the input.
pub enum LineView {
    /// Its text, and where the next line begins.
    Line { text: Seq<char>, next: int },
    /// The end of the line did not arrive yet.
    More,
    Fault(ReadFaultView),
}

pub open spec fn protocol_fault(status: u16, msg: Seq<char>) -> ReadFaultView {
    ReadFaultView::Protocol { status, msg }
}

/// A line is too long.
pub open spec fn too_long(n: int, limit: int) -> ReadFaultView {
    protocol_fault(
        STATUS_URI_TOO_LONG,
        "line "@ + text::dec(n as nat) + " bytes exceeds "@ + text::dec(limit as nat) + " max"@,
    )
}

/// `s` without a carriage return at its end.
pub open spec fn without_cr(s: Seq<u8>) -> Seq<u8> {
    if s.len() > 0 && s.last() == 13 {
        s.drop_last()
    } else {
        s
    }
}

/// The line that begins at `pos`. It ends with a line feed, which counts towards the limit;
/// a carriage return before that is dropped.
pub open spec fn line_at(buf: Seq<u8>, pos: int, limit: int, ended: bool) -> LineView {
    let rest = buf.skip(pos);
    match text::find(rest, 10u8) {
        Some(k) => if k + 1 > limit {
            LineView::Fault(too_long(k + 1, limit))
        } else {
            LineView::Line {
                text: text::bytes_text(without_cr(rest.take(k))),
                next: pos + k + 1,
            }
        },
        None => if !ended {
            LineView::More
        } else if rest.len() == 0 {
            LineView::Fault(ReadFaultView::Eof)
        } else if rest.len() > limit {
            LineView::Fault(too_long(rest.len() as int, limit))
        } else if rest.len() == limit {
            LineView::Fault(protocol_fault(STATUS_URI_TOO_LONG, "line exceeds bufio buffer"@))
        } else {
            LineView::More
        },
    }
}

/// A line of the input.
pub enum LineRead {
    Line(String, usize),
    More,
    Fault(ReadRequestError),
}

impl View for LineRead {
    type V = LineView;

    open spec fn view(&self) -> LineView {
        match self {
            LineRead::Line(s, next) => LineView::Line { text: s@, next: *next as int },
            LineRead::More => LineView::More,
            LineRead::Fault(e) => LineView::Fault(e@),
        }
    }
}

fn refuse(status: u16, msg: &str) -> (e: ReadRequestError)
    ensures
        e@ == protocol_fault(status, msg@),
{
    ReadRequestError::Protocol(HttpProtocolError::new(status, msg))
}

fn refuse_about(status: u16, msg: &str, subject: &str) -> (e: ReadRequestError)
    ensures
        e@ == protocol_fault(status, msg@ + subject@),
{
    let mut m = msg.to_owned();
    m.append(subject);
    refuse(status, m.as_str())
}

fn refuse_line(n: usize, limit: usize) -> (e: ReadRequestError)
    ensures
        e@ == too_long(n as int, limit as int),
{
    let mut m = "line ".to_owned();
    push_dec(&mut m, n as u64);
    m.append(" bytes exceeds ");
    push_dec(&mut m, limit as u64);
    m.append(" max");
    refuse(STATUS_URI_TOO_LONG, m.as_str())
}

/// Reads the line that begins at `pos`.
pub fn read_line(buf: &[u8], pos: usize, limit: usize, ended: bool) -> (r: LineRead)
    requires
        pos <= buf@.len(),
    ensures
        r@ == line_at(buf@, pos as int, limit as int, ended),
        r matches LineRead::Line(_, next) ==> pos < next <= buf@.len(),
{
    let rest = slice_subrange(buf, pos, buf.len());
    assert(rest@ =~= buf@.skip(pos as int));
    match find_byte(rest, 10) {
        Some(k) => {
            if k >= limit {
                return LineRead::Fault(refuse_line(k + 1, limit));
            }
            let end: usize = if k > 0 && rest[k - 1] == 13 {
                k - 1
            } else {
                k
            };
            let line = slice_subrange(rest, 0, end);
            assert(line@ =~= without_cr(rest@.take(k as int)));
            LineRead::Line(utf8_lossy(line), pos + k + 1)
        },
        None => {
            if !ended {
                LineRead::More
            } else if rest.len() == 0 {
                LineRead::Fault(ReadRequestError::Eof)
            } else if rest.len() > limit {
                LineRead::Fault(refuse_line(rest.len(), limit))
            } else if rest.len() == limit {
                LineRead::Fault(refuse(STATUS_URI_TOO_LONG, "line exceeds bufio buffer"))
            } else {
                LineRead::More
            }
        },
    }
}

// ---------------------------------------------------------------------------
// The parts of a head
// ---------------------------------------------------------------------------

/// Method, target and version of a request line.
pub open spec fn request_line_parts(line: Seq<char>) -> Result<
    (Seq<char>, Seq<char>, Seq<char>),
    ReadFaultView,
> {
    let malformed = protocol_fault(STATUS_BAD_REQUEST, "malformed request line: "@ + line);
    match text::find(line, ' ') {
        None => Err(malformed),
        Some(a) => {
            let rest = line.skip(a + 1);
            match text::find(rest, ' ') {
                None => Err(malformed),
                Some(b) => {
                    let (method, target, version) = (line.take(a), rest.take(b), rest.skip(b + 1));
                    if method.len() == 0 || target.len() == 0 || version.len() == 0 {
                        Err(
                            protocol_fault(
                                STATUS_BAD_REQUEST,
                                "empty field in request line: "@ + line,
                            ),
                        )
                    } else {
                        Ok((method, target, version))
                    }
                },
            }
        },
    }
}

/// Splits `"METHOD TARGET VERSION"`.
pub fn parse_request_line<'a>(line: &'a str) -> (r: Result<
    (&'a str, &'a str, &'a str),
    ReadRequestError,
>)
    ensures
        match r {
            Ok((m, t, v)) => request_line_parts(line@) == Ok::<_, ReadFaultView>((m@, t@, v@)),
            Err(e) => request_line_parts(line@) == Err::<(Seq<char>, Seq<char>, Seq<char>), _>(e@),
        },
{
    let cs = chars_of(line);
    let a: usize = match find_char(cs.as_slice(), ' ') {
        Some(i) => i,
        None => {
            return Err(refuse_about(STATUS_BAD_REQUEST, "malformed request line: ", line));
        },
    };
    let rest = slice_subrange(cs.as_slice(), a + 1, cs.len());
    assert(rest@ =~= line@.skip(a + 1));
    let b: usize = match find_char(rest, ' ') {
        Some(i) => i,
        None => {
            return Err(refuse_about(STATUS_BAD_REQUEST, "malformed request line: ", line));
        },
    };
    let method = line.substring_char(0, a);
    let target = line.substring_char(a + 1, a + 1 + b);
    let version = line.substring_char(a + 1 + b + 1, cs.len());
    assert(method@ =~= line@.take(a as int));
    assert(target@ =~= rest@.take(b as int));
    assert(version@ =~= rest@.skip(b + 1));
    if method.is_empty() || target.is_empty() || version.is_empty() {
        return Err(refuse_about(STATUS_BAD_REQUEST, "empty field in request line: ", line));
    }
    Ok((method, target, version))
}

/// The header fields from `pos` on.
pub enum FieldsView {
    Done { header: Map<Seq<char>, Seq<Seq<char>>>, host: Seq<char>, next: int },
    More,
    Fault(ReadFaultView),
}

/// The header fields from `pos` on, behind `count` others that took `total` bytes and gave
/// `h` and `host`. An empty line ends them.
pub open spec fn fields_at(
    buf: Seq<u8>,
    pos: int,
    ended: bool,
    count: int,
    total: int,
    h: Map<Seq<char>, Seq<Seq<char>>>,
    host: Seq<char>,
) -> FieldsView
    decreases MAX_HEADER_COUNT + 1 - count,
{
    match line_at(buf, pos, MAX_REQUEST_LINE_BYTES as int, ended) {
        LineView::More => FieldsView::More,
        LineView::Fault(f) => FieldsView::Fault(f),
        LineView::Line { text: line, next } => {
            let total = total + encode_utf8(line).len() + 2;
            if line.len() == 0 {
                FieldsView::Done { header: h, host, next }
            } else if total > MAX_HEADER_BYTES {
                FieldsView::Fault(
                    protocol_fault(
                        STATUS_REQUEST_HEADER_TOO_BIG,
                        "header section exceeds limit"@,
                    ),
                )
            } else if count >= MAX_HEADER_COUNT {
                FieldsView::Fault(
                    protocol_fault(STATUS_REQUEST_HEADER_TOO_BIG, "too many headers"@),
                )
            } else {
                match text::find(line, ':') {
                    Some(c) => if c > 0 {
                        let name = header::canonical(text::trim(line.take(c)));
                        let value = text::trim(line.skip(c + 1));
                        fields_at(
                            buf,
                            next,
                            ended,
                            count + 1,
                            total,
                            header::with_value(h, name, value),
                            if name == "Host"@ && host.len() == 0 {
                                value
                            } else {
                                host
                            },
                        )
                    } else {
                        FieldsView::Fault(
                            protocol_fault(STATUS_BAD_REQUEST, "malformed header: "@ + line),
                        )
                    },
                    None => FieldsView::Fault(
                        protocol_fault(STATUS_BAD_REQUEST, "malformed header: "@ + line),
                    ),
                }
            }
        },
    }
}

/// The header fields.
pub enum FieldsRead {
    Done(Header, String, usize),
    More,
    Fault(ReadRequestError),
}

impl View for FieldsRead {
    type V = FieldsView;

    open spec fn view(&self) -> FieldsView {
        match self {
            FieldsRead::Done(h, host, next) => FieldsView::Done {
                header: h@,
                host: host@,
                next: *next as int,
            },
            FieldsRead::More => FieldsView::More,
            FieldsRead::Fault(e) => FieldsView::Fault(e@),
        }
    }
}

/// Reads the header fields from `pos` on.
pub fn read_headers(buf: &[u8], pos: usize, ended: bool) -> (r: FieldsRead)
    requires
        pos <= buf@.len(),
    ensures
        r@ == fields_at(buf@, pos as int, ended, 0, 0, Map::empty(), Seq::empty()),
        r matches FieldsRead::Done(_, _, next) ==> next <= buf@.len(),
{
    let mut headers = Header::new();
    let mut host = String::new();
    let mut total: usize = 0;
    let mut at: usize = pos;
    let mut count: usize = 0;
    let ghost all = fields_at(buf@, pos as int, ended, 0, 0, Map::empty(), Seq::empty());
    loop
        invariant
            at <= buf@.len(),
            count <= MAX_HEADER_COUNT,
            total <= MAX_HEADER_BYTES,
            fields_at(
                buf@,
                at as int,
                ended,
                count as int,
                total as int,
                headers@,
                host@,
            ) == all,
            all == fields_at(buf@, pos as int, ended, 0, 0, Map::empty(), Seq::empty()),
        decreases MAX_HEADER_COUNT + 1 - count,
    {
        let (line, next) = match read_line(buf, at, MAX_REQUEST_LINE_BYTES, ended) {
            LineRead::Line(l, n) => (l, n),
            LineRead::More => return FieldsRead::More,
            LineRead::Fault(e) => return FieldsRead::Fault(e),
        };
        if line.as_str().is_empty() {
            return FieldsRead::Done(headers, host, next);
        }
        let n: usize = line.as_str().as_bytes().len();
        if n > MAX_HEADER_BYTES || total + n + 2 > MAX_HEADER_BYTES {
            return FieldsRead::Fault(
                refuse(STATUS_REQUEST_HEADER_TOO_BIG, "header section exceeds limit"),
            );
        }
        total = total + n + 2;
        if count >= MAX_HEADER_COUNT {
            return FieldsRead::Fault(refuse(STATUS_REQUEST_HEADER_TOO_BIG, "too many headers"));
        }
        let cs = chars_of(line.as_str());
        let colon: usize = match find_char(cs.as_slice(), ':') {
            Some(c) => if c > 0 {
                c
            } else {
                return FieldsRead::Fault(
                    refuse_about(STATUS_BAD_REQUEST, "malformed header: ", line.as_str()),
                );
            },
            None => {
                return FieldsRead::Fault(
                    refuse_about(STATUS_BAD_REQUEST, "malformed header: ", line.as_str()),
                );
            },
        };
        assert(cs@.subrange(0, colon as int) =~= line@.take(colon as int));
        assert(cs@.subrange(colon + 1, cs@.len() as int) =~= line@.skip(colon + 1));
        let key = string_of(trim_chars(slice_subrange(cs.as_slice(), 0, colon)));
        let value = string_of(trim_chars(slice_subrange(cs.as_slice(), colon + 1, cs.len())));
        let name = canonical_mime_header_key(key.as_str());
        headers.add(name.as_str(), value.as_str());
        if str_eq(name.as_str(), "Host") && host.as_str().is_empty() {
            host = value;
        }
        at = next;
        count += 1;
    }
}

/// Path and query of a target.
pub open spec fn path_query(target: Seq<char>) -> (Seq<char>, Seq<char>) {
    match text::find(target, '?') {
        Some(i) => (target.take(i), target.skip(i + 1)),
        None => (target, ""@),
    }
}

/// Splits `"/path?query"`.
pub fn split_path_query<'a>(target: &'a str) -> (r: (&'a str, &'a str))
    ensures
        (r.0@, r.1@) == path_query(target@),
{
    let cs = chars_of(target);
    match find_char(cs.as_slice(), '?') {
        Some(i) => {
            let path = target.substring_char(0, i);
            let query = target.substring_char(i + 1, cs.len());
            assert(path@ =~= target@.take(i as int));
            assert(query@ =~= target@.skip(i + 1));
            (path, query)
        },
        None => (target, ""),
    }
}

/// Splitting a target and putting it together again gives the target, unless it ends with a
/// `?` behind which nothing stands.
pub proof fn law_target_after_split(target: Seq<char>)
    requires
        path_query(target).1.len() > 0 || text::find(target, '?') is None,
    ensures
        super::target_text(path_query(target).0, path_query(target).1) == target,
{
    text::lemma_find(target, '?');
    reveal_strlit("?");
    reveal_strlit("");
    match text::find(target, '?') {
        Some(i) => {
            assert(target.take(i) + "?"@ + target.skip(i + 1) =~= target);
        },
        None => {},
    }
}

// ---------------------------------------------------------------------------
// Requests
// ---------------------------------------------------------------------------

/// How far a request was read.
pub enum RequestProgress {
    /// More bytes are needed: of the head, or of the body.
    More { headers_done: bool },
    Done(RequestView),
    Fault(ReadFaultView),
}

/// Whether one of the codings of a `Transfer-Encoding` is `chunked`.
pub open spec fn names_chunked(te: Seq<char>) -> bool {
    let parts = text::split(te, ',');
    exists|i: int|
        0 <= i < parts.len() && text::eq_no_case(text::trim(#[trigger] parts[i]), "chunked"@)
}

/// What is wrong with the request line.
pub open spec fn request_line_fault(method: Seq<char>, version: Seq<char>) -> Option<
    ReadFaultView,
> {
    if version != "HTTP/1.1"@ && version != "HTTP/1.0"@ {
        Some(protocol_fault(STATUS_UPGRADE_REQUIRED, "unsupported HTTP version: "@ + version))
    } else if method != METHOD_GET@ && method != METHOD_POST@ {
        Some(protocol_fault(STATUS_METHOD_NOT_ALLOWED, "unsupported method: "@ + method))
    } else {
        None
    }
}

/// What is wrong with the header fields.
pub open spec fn fields_fault(
    version: Seq<char>,
    host: Seq<char>,
    h: Map<Seq<char>, Seq<Seq<char>>>,
) -> Option<ReadFaultView> {
    if version == "HTTP/1.1"@ && host.len() == 0 {
        Some(protocol_fault(STATUS_BAD_REQUEST, "HTTP/1.1 requires Host header"@))
    } else {
        match header::field(h, "Transfer-Encoding"@) {
            Some(te) => if names_chunked(te) {
                Some(protocol_fault(STATUS_BAD_REQUEST, "chunked request body not supported"@))
            } else {
                None
            },
            None => None,
        }
    }
}

/// The length of the body that the header fields give; 0 without one.
pub open spec fn body_length(h: Map<Seq<char>, Seq<Seq<char>>>) -> Result<int, ReadFaultView> {
    match header::field(h, "Content-Length"@) {
        None => Ok(0),
        Some(cl) => match text::int_value(cl) {
            Some(n) => if 0 <= n <= MAX_BODY_BYTES {
                Ok(n)
            } else if MAX_BODY_BYTES < n <= i64::MAX {
                Err(
                    protocol_fault(
                        STATUS_PAYLOAD_TOO_LARGE,
                        "body "@ + text::dec(n as nat) + " bytes exceeds "@ + text::dec(
                            MAX_BODY_BYTES as nat,
                        ) + " max"@,
                    ),
                )
            } else {
                Err(protocol_fault(STATUS_BAD_REQUEST, "invalid Content-Length: "@ + cl))
            },
            None => Err(protocol_fault(STATUS_BAD_REQUEST, "invalid Content-Length: "@ + cl)),
        },
    }
}

/// How far the body at `pos` and with it the request was read.
pub open spec fn body_at(
    buf: Seq<u8>,
    pos: int,
    ended: bool,
    method: Seq<char>,
    target: Seq<char>,
    h: Map<Seq<char>, Seq<Seq<char>>>,
    host: Seq<char>,
) -> RequestProgress {
    match body_length(h) {
        Err(f) => RequestProgress::Fault(f),
        Ok(n) => if buf.len() - pos < n {
            if ended {
                RequestProgress::Fault(ReadFaultView::Eof)
            } else {
                RequestProgress::More { headers_done: true }
            }
        } else if header::field(h, "Upgrade"@) matches Some(up) && text::eq_no_case(up, "h2c"@) {
            RequestProgress::Fault(
                protocol_fault(
                    STATUS_UPGRADE_REQUIRED,
                    "HTTP/2 cleartext upgrade not supported"@,
                ),
            )
        } else {
            RequestProgress::Done(
                RequestView {
                    method,
                    path: path_query(target).0,
                    raw_query: path_query(target).1,
                    header: h,
                    body: buf.subrange(pos, pos + n),
                    host,
                    remote_addr: Seq::empty(),
                    content_length: n,
                },
            )
        },
    }
}

/// How far the request at the beginning of `buf` was read.
pub open spec fn request_at(buf: Seq<u8>, ended: bool) -> RequestProgress {
    match line_at(buf, 0, MAX_REQUEST_LINE_BYTES as int, ended) {
        LineView::More => RequestProgress::More { headers_done: false },
        LineView::Fault(f) => RequestProgress::Fault(f),
        LineView::Line { text: line, next } => match request_line_parts(line) {
            Err(f) => RequestProgress::Fault(f),
            Ok((method, target, version)) => match request_line_fault(method, version) {
                Some(f) => RequestProgress::Fault(f),
                None => match fields_at(buf, next, ended, 0, 0, Map::empty(), Seq::empty()) {
                    FieldsView::More => RequestProgress::More { headers_done: false },
                    FieldsView::Fault(f) => RequestProgress::Fault(f),
                    FieldsView::Done { header: h, host, next } => match fields_fault(
                        version,
                        host,
                        h,
                    ) {
                        Some(f) => RequestProgress::Fault(f),
                        None => body_at(buf, next, ended, method, target, h, host),
                    },
                },
            },
        },
    }
}

/// How far a request was read.
pub enum RequestRead {
    /// More bytes are needed: of the head, or of the body.
    More { headers_done: bool },
    Done(Request),
    Fault(ReadRequestError),
}

impl View for RequestRead {
    type V = RequestProgress;

    open spec fn view(&self) -> RequestProgress {
        match self {
            RequestRead::More { headers_done } => RequestProgress::More {
                headers_done: *headers_done,
            },
            RequestRead::Done(r) => RequestProgress::Done(r@),
            RequestRead::Fault(e) => RequestProgress::Fault(e@),
        }
    }
}

fn codes_chunked(te: &str) -> (r: bool)
    ensures
        r == names_chunked(te@),
{
    let parts = split_chars(chars_of(te).as_slice(), ',');
    let ghost p = text::split(te@, ',');
    let mut i: usize = 0;
    while i < parts.len()
        invariant
            i <= parts.len(),
            text::views(parts@) == p,
            p == text::split(te@, ','),
            forall|j: int|
                0 <= j < i ==> !text::eq_no_case(text::trim(#[trigger] p[j]), "chunked"@),
        decreases parts.len() - i,
    {
        assert(p[i as int] == parts@[i as int]@);
        if chars_eq_no_case(trim_chars(parts[i].as_slice()), "chunked") {
            return true;
        }
        i += 1;
    }
    assert(p.len() == parts@.len());
    false
}

fn parse_content_length(cl: &str) -> (r: Result<i64, ReadRequestError>)
    ensures
        match r {
            Ok(n) => n >= 0 && text::int_value(cl@) == Some(n as int),
            Err(e) => e@ == protocol_fault(STATUS_BAD_REQUEST, "invalid Content-Length: "@ + cl@)
                && match text::int_value(cl@) {
                Some(n) => n < 0 || n > i64::MAX,
                None => true,
            },
        },
{
    match parse_i64(chars_of(cl).as_slice()) {
        Some(n) => if n >= 0 {
            return Ok(n);
        },
        None => {},
    }
    Err(refuse_about(STATUS_BAD_REQUEST, "invalid Content-Length: ", cl))
}

fn content_length(h: &Header) -> (r: Result<i64, ReadRequestError>)
    ensures
        match r {
            Ok(n) => 0 <= n <= MAX_BODY_BYTES && body_length(h@) == Ok::<int, ReadFaultView>(
                n as int,
            ),
            Err(e) => body_length(h@) == Err::<int, ReadFaultView>(e@),
        },
{
    match h.get("Content-Length") {
        None => Ok(0),
        Some(cl) => match parse_content_length(cl) {
            Err(e) => Err(e),
            Ok(n) => {
                if n > MAX_BODY_BYTES {
                    let mut m = "body ".to_owned();
                    push_dec(&mut m, n as u64);
                    m.append(" bytes exceeds ");
                    push_dec(&mut m, MAX_BODY_BYTES as u64);
                    m.append(" max");
                    return Err(refuse(STATUS_PAYLOAD_TOO_LARGE, m.as_str()));
                }
                Ok(n)
            },
        },
    }
}

/// Reads the request at the beginning of `buf`.
pub fn read_request(buf: &[u8], ended: bool) -> (r: RequestRead)
    ensures
        r@ == request_at(buf@, ended),
{
    let (line, next) = match read_line(buf, 0, MAX_REQUEST_LINE_BYTES, ended) {
        LineRead::Line(l, n) => (l, n),
        LineRead::More => return RequestRead::More { headers_done: false },
        LineRead::Fault(e) => return RequestRead::Fault(e),
    };
    let (method, target, version) = match parse_request_line(line.as_str()) {
        Ok(parts) => parts,
        Err(e) => return RequestRead::Fault(e),
    };
    if !str_eq(version, "HTTP/1.1") && !str_eq(version, "HTTP/1.0") {
        return RequestRead::Fault(
            refuse_about(STATUS_UPGRADE_REQUIRED, "unsupported HTTP version: ", version),
        );
    }
    if !str_eq(method, METHOD_GET) && !str_eq(method, METHOD_POST) {
        return RequestRead::Fault(
            refuse_about(STATUS_METHOD_NOT_ALLOWED, "unsupported method: ", method),
        );
    }
    let (headers, host, next) = match read_headers(buf, next, ended) {
        FieldsRead::Done(h, host, n) => (h, host, n),
        FieldsRead::More => return RequestRead::More { headers_done: false },
        FieldsRead::Fault(e) => return RequestRead::Fault(e),
    };
    if str_eq(version, "HTTP/1.1") && host.as_str().is_empty() {
        return RequestRead::Fault(refuse(STATUS_BAD_REQUEST, "HTTP/1.1 requires Host header"));
    }
    match headers.get("Transfer-Encoding") {
        Some(te) => if codes_chunked(te) {
            return RequestRead::Fault(
                refuse(STATUS_BAD_REQUEST, "chunked request body not supported"),
            );
        },
        None => {},
    }
    let n: i64 = match content_length(&headers) {
        Ok(n) => n,
        Err(e) => return RequestRead::Fault(e),
    };
    let want: usize = n as usize;
    if buf.len() - next < want {
        return if ended {
            RequestRead::Fault(ReadRequestError::Eof)
        } else {
            RequestRead::More { headers_done: true }
        };
    }
    match headers.get("Upgrade") {
        Some(up) => if chars_eq_no_case(chars_of(up).as_slice(), "h2c") {
            return RequestRead::Fault(
                refuse(STATUS_UPGRADE_REQUIRED, "HTTP/2 cleartext upgrade not supported"),
            );
        },
        None => {},
    }
    let body = slice_to_vec(slice_subrange(buf, next, next + want));
    let (path, query) = split_path_query(target);
    RequestRead::Done(
        Request {
            method: method.to_owned(),
            url: Url { path: path.to_owned(), raw_query: query.to_owned() },
            header: headers,
            body,
            host,
            remote_addr: String::new(),
            content_length: n,
        },
    )
}

proof fn lemma_find_stable(s: Seq<u8>, tail: Seq<u8>, x: u8)
    requires
        text::find(s, x) is Some,
    ensures
        text::find(s + tail, x) == text::find(s, x),
{
    text::lemma_find(s, x);
    let i = text::find(s, x)->0;
    text::lemma_find_at(s + tail, x, i);
}

proof fn lemma_line_stable(buf: Seq<u8>, tail: Seq<u8>, pos: int, limit: int, ended: bool)
    requires
        0 <= pos <= buf.len(),
        line_at(buf, pos, limit, false) !is More,
    ensures
        line_at(buf + tail, pos, limit, ended) == line_at(buf, pos, limit, false),
        line_at(buf, pos, limit, false) matches LineView::Line { next, .. } ==> pos < next
            <= buf.len(),
{
    let rest = buf.skip(pos);
    assert((buf + tail).skip(pos) =~= rest + tail);
    text::lemma_find(rest, 10u8);
    lemma_find_stable(rest, tail, 10u8);
    let k = text::find(rest, 10u8)->0;
    assert((rest + tail).take(k) =~= rest.take(k));
}

proof fn lemma_fields_stable(
    buf: Seq<u8>,
    tail: Seq<u8>,
    pos: int,
    ended: bool,
    count: int,
    total: int,
    h: Map<Seq<char>, Seq<Seq<char>>>,
    host: Seq<char>,
)
    requires
        0 <= pos <= buf.len(),
        fields_at(buf, pos, false, count, total, h, host) !is More,
    ensures
        fields_at(buf + tail, pos, ended, count, total, h, host) == fields_at(
            buf,
            pos,
            false,
            count,
            total,
            h,
            host,
        ),
        fields_at(buf, pos, false, count, total, h, host) matches FieldsView::Done { next, .. }
            ==> pos < next <= buf.len(),
    decreases MAX_HEADER_COUNT + 1 - count,
{
    lemma_line_stable(buf, tail, pos, MAX_REQUEST_LINE_BYTES as int, ended);
    match line_at(buf, pos, MAX_REQUEST_LINE_BYTES as int, false) {
        LineView::Line { text: line, next } => {
            let sum = total + encode_utf8(line).len() + 2;
            match text::find(line, ':') {
                Some(c) => {
                    if line.len() > 0 && sum <= MAX_HEADER_BYTES && count < MAX_HEADER_COUNT && c
                        > 0 {
                        let name = header::canonical(text::trim(line.take(c)));
                        let value = text::trim(line.skip(c + 1));
                        lemma_fields_stable(
                            buf,
                            tail,
                            next,
                            ended,
                            count + 1,
                            sum,
                            header::with_value(h, name, value),
                            if name == "Host"@ && host.len() == 0 {
                                value
                            } else {
                                host
                            },
                        );
                    }
                },
                None => {},
            }
        },
        _ => {},
    }
}

/// Once a request is complete or refused, bytes that arrive later change nothing.
pub proof fn law_request_settled(buf: Seq<u8>, tail: Seq<u8>, ended: bool)
    requires
        request_at(buf, false) !is More,
    ensures
        request_at(buf + tail, ended) == request_at(buf, false),
{
    lemma_line_stable(buf, tail, 0, MAX_REQUEST_LINE_BYTES as int, ended);
    match line_at(buf, 0, MAX_REQUEST_LINE_BYTES as int, false) {
        LineView::Line { text: line, next } => match request_line_parts(line) {
            Ok((method, target, version)) => {
                if request_line_fault(method, version) is None {
                    lemma_fields_stable(
                        buf,
                        tail,
                        next,
                        ended,
                        0,
                        0,
                        Map::empty(),
                        Seq::empty(),
                    );
                    match fields_at(buf, next, false, 0, 0, Map::empty(), Seq::empty()) {
                        FieldsView::Done { header: h, host, next } => {
                            match body_length(h) {
                                Ok(n) => {
                                    if buf.len() - next >= n {
                                        assert((buf + tail).subrange(next, next + n)
                                            =~= buf.subrange(next, next + n));
                                    }
                                },
                                Err(_) => {},
                            }
                        },
                        _ => {},
                    }
                }
            },
            Err(_) => {},
        },
        _ => {},
    }
}

// ---------------------------------------------------------------------------
// Responses
// ---------------------------------------------------------------------------

/// The status code in a status line such as `HTTP/1.1 200 OK`.
pub open spec fn status_line_code(line: Seq<char>) -> Result<u16, Seq<char>> {
    match text::find(line, ' ') {
        None => Err("malformed status line: "@ + line),
        Some(a) => {
            let rest = line.skip(a + 1);
            let code = match text::find(rest, ' ') {
                Some(b) => rest.take(b),
                None => rest,
            };
            if !text::has_prefix(line.take(a), "HTTP/"@) {
                Err("missing HTTP/ prefix: "@ + line)
            } else {
                match text::u16_value(code) {
                    Some(n) => if 100 <= n <= 999 {
                        Ok(n)
                    } else {
                        Err("invalid status code: "@ + code)
                    },
                    None => Err("invalid status code: "@ + code),
                }
            }
        },
    }
}

/// Reads the status code of a status line.
pub fn parse_status_line(line: &str) -> (r: Result<u16, HttpProtocolError>)
    ensures
        match r {
            Ok(n) => status_line_code(line@) == Ok::<u16, Seq<char>>(n),
            Err(e) => e.status == STATUS_BAD_GATEWAY && status_line_code(line@) == Err::<
                u16,
                Seq<char>,
            >(e.msg@),
        },
{
    let cs = chars_of(line);
    let a: usize = match find_char(cs.as_slice(), ' ') {
        Some(i) => i,
        None => {
            let mut m = "malformed status line: ".to_owned();
            m.append(line);
            return Err(HttpProtocolError::new(STATUS_BAD_GATEWAY, m.as_str()));
        },
    };
    let head = slice_subrange(cs.as_slice(), 0, a);
    let rest = slice_subrange(cs.as_slice(), a + 1, cs.len());
    assert(head@ =~= line@.take(a as int));
    assert(rest@ =~= line@.skip(a + 1));
    if !chars_start_with(head, "HTTP/") {
        let mut m = "missing HTTP/ prefix: ".to_owned();
        m.append(line);
        return Err(HttpProtocolError::new(STATUS_BAD_GATEWAY, m.as_str()));
    }
    let code = match find_char(rest, ' ') {
        Some(b) => slice_subrange(rest, 0, b),
        None => rest,
    };
    assert(code@ =~= match text::find(rest@, ' ') {
        Some(b) => rest@.take(b),
        None => rest@,
    });
    match parse_u16(code) {
        Some(n) => if 100 <= n && n <= 999 {
            return Ok(n);
        },
        None => {},
    }
    let mut m = "invalid status code: ".to_owned();
    m.append(string_of(code).as_str());
    Err(HttpProtocolError::new(STATUS_BAD_GATEWAY, m.as_str()))
}

/// A response that was read.
#[derive(Debug)]
pub struct ClientResponse {
    pub status_code: u16,
    pub header: Header,
    pub body: Vec<u8>,
}

/// Why no response was read: the connection ended early, or what came was not understood.
#[derive(Debug, Clone, PartialEq, Eq)]
pub struct ResponseError {
    pub unexpected_eof: bool,
    pub msg: String,
}

/// `ResponseError` with its text as a sequence.
pub struct ResponseFault {
    pub unexpected_eof: bool,
    pub msg: Seq<char>,
}

impl View for ResponseError {
    type V = ResponseFault;

    open spec fn view(&self) -> ResponseFault {
        ResponseFault { unexpected_eof: self.unexpected_eof, msg: self.msg@ }
    }
}

/// What came was not understood.
pub open spec fn bad_data(msg: Seq<char>) -> ResponseFault {
    ResponseFault { unexpected_eof: false, msg }
}

/// A failure to read the head as a failure to read the response.
pub open spec fn head_fault(f: ReadFaultView) -> ResponseFault {
    ResponseFault { unexpected_eof: f is Eof, msg: super::read_fault_text(f) }
}

/// How far a body was read.
pub enum BodyProgress {
    More,
    Done(Seq<u8>),
    Fault(ResponseFault),
}

/// The lines behind the last chunk, up to an empty one.
pub open spec fn trailers_at(buf: Seq<u8>, pos: int, ended: bool, got: Seq<u8>) -> BodyProgress
    decreases buf.len() - pos,
{
    match line_at(buf, pos, MAX_REQUEST_LINE_BYTES as int, ended) {
        LineView::More => BodyProgress::More,
        LineView::Fault(f) => BodyProgress::Fault(
            bad_data("read chunk trailer: "@ + super::read_fault_text(f)),
        ),
        LineView::Line { text: line, next } => if line.len() == 0 {
            BodyProgress::Done(got)
        } else if pos < next <= buf.len() {
            trailers_at(buf, next, ended, got)
        } else {
            BodyProgress::More
        },
    }
}

/// The size of a chunk as it stands in its line, before a `;`, space or tab.
pub open spec fn size_part(line: Seq<char>) -> Seq<char>
    decreases line.len(),
{
    if line.len() == 0 || line[0] == ';' || line[0] == ' ' || line[0] == '\t' {
        Seq::empty()
    } else {
        seq![line[0]] + size_part(line.drop_first())
    }
}

/// The size that the line of a chunk gives.
pub open spec fn chunk_size(line: Seq<char>) -> Option<int> {
    match text::hex_int_value(size_part(line)) {
        Some(n) => if 0 <= n <= i64::MAX {
            Some(n)
        } else {
            None
        },
        None => None,
    }
}

/// The chunks from `pos` on, behind others that gave `got`; `short` describes a connection
/// that ended within a chunk.
pub open spec fn chunks_at(
    buf: Seq<u8>,
    pos: int,
    ended: bool,
    short: Seq<char>,
    got: Seq<u8>,
) -> BodyProgress
    decreases buf.len() - pos,
{
    match line_at(buf, pos, MAX_CHUNK_LINE_BYTES as int, ended) {
        LineView::More => BodyProgress::More,
        LineView::Fault(f) => BodyProgress::Fault(
            bad_data("read chunk size: "@ + super::read_fault_text(f)),
        ),
        LineView::Line { text: line, next } => match chunk_size(line) {
            None => BodyProgress::Fault(
                bad_data("invalid chunk size: "@ + text::debug_text(line)),
            ),
            Some(n) => if n == 0 {
                trailers_at(buf, next, ended, got)
            } else if got.len() + n > MAX_BODY_BYTES {
                BodyProgress::Fault(
                    bad_data(
                        "chunked body cumulative "@ + text::dec((got.len() + n) as nat)
                            + " exceeds "@ + text::dec(MAX_BODY_BYTES as nat) + " max"@,
                    ),
                )
            } else if buf.len() - next < n {
                if ended {
                    BodyProgress::Fault(bad_data("read chunk body: "@ + short))
                } else {
                    BodyProgress::More
                }
            } else if buf.len() - next < n + 2 {
                if ended {
                    BodyProgress::Fault(bad_data("skip chunk CRLF: "@ + short))
                } else {
                    BodyProgress::More
                }
            } else if pos < next {
                chunks_at(
                    buf,
                    next + n + 2,
                    ended,
                    short,
                    got + buf.subrange(next, next + n),
                )
            } else {
                BodyProgress::More
            },
        },
    }
}

/// The length that a response gives for its body.
pub open spec fn response_length(cl: Seq<char>) -> Result<int, Seq<char>> {
    match text::int_value(cl) {
        Some(n) => if 0 <= n <= MAX_BODY_BYTES {
            Ok(n)
        } else if MAX_BODY_BYTES < n <= i64::MAX {
            Err(
                "httpx: response body "@ + text::dec(n as nat) + " exceeds "@ + text::dec(
                    MAX_BODY_BYTES as nat,
                ) + " max"@,
            )
        } else {
            Err("httpx: invalid response Content-Length: "@ + cl)
        },
        None => Err("httpx: invalid response Content-Length: "@ + cl),
    }
}

/// The body of a response with the header fields `h`: in chunks, of a given length, or empty.
pub open spec fn response_body_at(
    buf: Seq<u8>,
    pos: int,
    ended: bool,
    short: Seq<char>,
    h: Map<Seq<char>, Seq<Seq<char>>>,
) -> BodyProgress {
    match header::field(h, "Transfer-Encoding"@) {
        Some(te) => if text::eq_no_case(te, "chunked"@) {
            chunks_at(buf, pos, ended, short, Seq::empty())
        } else {
            BodyProgress::Done(Seq::empty())
        },
        None => match header::field(h, "Content-Length"@) {
            Some(cl) => match response_length(cl) {
                Err(m) => BodyProgress::Fault(bad_data(m)),
                Ok(n) => if buf.len() - pos < n {
                    if ended {
                        BodyProgress::Fault(
                            ResponseFault {
                                unexpected_eof: true,
                                msg: "httpx: read response body: "@ + short,
                            },
                        )
                    } else {
                        BodyProgress::More
                    }
                } else {
                    BodyProgress::Done(buf.subrange(pos, pos + n))
                },
            },
            None => BodyProgress::Done(Seq::empty()),
        },
    }
}

/// How far a response was read.
pub enum ResponseProgress {
    More,
    Done { status: u16, header: Map<Seq<char>, Seq<Seq<char>>>, body: Seq<u8> },
    Fault(ResponseFault),
}

/// How far the response at the beginning of `buf` was read.
pub open spec fn response_at(buf: Seq<u8>, ended: bool, short: Seq<char>) -> ResponseProgress {
    match line_at(buf, 0, MAX_REQUEST_LINE_BYTES as int, ended) {
        LineView::More => ResponseProgress::More,
        LineView::Fault(f) => ResponseProgress::Fault(head_fault(f)),
        LineView::Line { text: line, next } => match status_line_code(line) {
            Err(m) => ResponseProgress::Fault(
                bad_data(super::protocol_error_text(STATUS_BAD_GATEWAY, m)),
            ),
            Ok(status) => match fields_at(buf, next, ended, 0, 0, Map::empty(), Seq::empty()) {
                FieldsView::More => ResponseProgress::More,
                FieldsView::Fault(f) => ResponseProgress::Fault(head_fault(f)),
                FieldsView::Done { header: h, host, next } => match response_body_at(
                    buf,
                    next,
                    ended,
                    short,
                    h,
                ) {
                    BodyProgress::More => ResponseProgress::More,
                    BodyProgress::Fault(f) => ResponseProgress::Fault(f),
                    BodyProgress::Done(body) => ResponseProgress::Done { status, header: h, body },
                },
            },
        },
    }
}

/// How far a body was read.
pub enum BodyRead {
    More,
    Done(Vec<u8>),
    Fault(ResponseError),
}

impl View for BodyRead {
    type V = BodyProgress;

    open spec fn view(&self) -> BodyProgress {
        match self {
            BodyRead::More => BodyProgress::More,
            BodyRead::Done(b) => BodyProgress::Done(b@),
            BodyRead::Fault(e) => BodyProgress::Fault(e@),
        }
    }
}

/// How far a response was read.
pub enum ResponseRead {
    More,
    Done(ClientResponse),
    Fault(ResponseError),
}

impl View for ResponseRead {
    type V = ResponseProgress;

    open spec fn view(&self) -> ResponseProgress {
        match self {
            ResponseRead::More => ResponseProgress::More,
            ResponseRead::Done(r) => ResponseProgress::Done {
                status: r.status_code,
                header: r.header@,
                body: r.body@,
            },
            ResponseRead::Fault(e) => ResponseProgress::Fault(e@),
        }
    }
}

fn misread(msg: &str, detail: &str) -> (e: ResponseError)
    ensures
        e@ == bad_data(msg@ + detail@),
{
    let mut m = msg.to_owned();
    m.append(detail);
    ResponseError { unexpected_eof: false, msg: m }
}

/// A failure to read the head as a failure to read the response.
fn io_err_from_read_request(e: &ReadRequestError) -> (r: ResponseError)
    ensures
        r@ == head_fault(e@),
{
    let unexpected_eof = match e {
        ReadRequestError::Eof => true,
        _ => false,
    };
    ResponseError { unexpected_eof, msg: e.message() }
}

fn read_trailers(buf: &[u8], pos: usize, ended: bool, got: Vec<u8>) -> (r: BodyRead)
    requires
        pos <= buf@.len(),
    ensures
        r@ == trailers_at(buf@, pos as int, ended, got@),
{
    let ghost all = trailers_at(buf@, pos as int, ended, got@);
    let mut at: usize = pos;
    loop
        invariant
            at <= buf@.len(),
            trailers_at(buf@, at as int, ended, got@) == all,
            all == trailers_at(buf@, pos as int, ended, got@),
        decreases buf@.len() - at,
    {
        match read_line(buf, at, MAX_REQUEST_LINE_BYTES, ended) {
            LineRead::Line(line, next) => {
                if line.as_str().is_empty() {
                    return BodyRead::Done(got);
                }
                at = next;
            },
            LineRead::More => return BodyRead::More,
            LineRead::Fault(e) => {
                return BodyRead::Fault(misread("read chunk trailer: ", e.message().as_str()));
            },
        }
    }
}

fn find_size(cs: &[char]) -> (n: usize)
    ensures
        n <= cs@.len(),
        cs@.take(n as int) == size_part(cs@),
{
    let mut i: usize = 0;
    assert(cs@.skip(0) =~= cs@);
    assert(cs@.take(0) + size_part(cs@.skip(0)) =~= size_part(cs@));
    while i < cs.len() && cs[i] != ';' && cs[i] != ' ' && cs[i] != '\t'
        invariant
            i <= cs@.len(),
            cs@.take(i as int) + size_part(cs@.skip(i as int)) == size_part(cs@),
        decreases cs@.len() - i,
    {
        assert(cs@.skip(i as int)[0] == cs@[i as int]);
        assert(cs@.skip(i as int).drop_first() =~= cs@.skip(i + 1));
        assert(cs@.take(i as int) + (seq![cs@[i as int]] + size_part(cs@.skip(i + 1)))
            =~= cs@.take(i + 1) + size_part(cs@.skip(i + 1)));
        i += 1;
    }
    assert(i < cs@.len() ==> cs@.skip(i as int)[0] == cs@[i as int]);
    assert(cs@.take(i as int) + Seq::<char>::empty() =~= cs@.take(i as int));
    i
}

fn parse_chunk_size(line: &str) -> (r: Option<i64>)
    ensures
        match r {
            Some(n) => n >= 0 && chunk_size(line@) == Some(n as int),
            None => chunk_size(line@) is None,
        },
{
    let cs = chars_of(line);
    let n: usize = find_size(cs.as_slice());
    let part = slice_subrange(cs.as_slice(), 0, n);
    assert(part@ =~= cs@.take(n as int));
    match parse_hex_i64(part) {
        Some(v) => if v >= 0 {
            Some(v)
        } else {
            None
        },
        None => None,
    }
}

/// Reads a body in chunks from `pos` on.
pub fn read_chunked_body(buf: &[u8], pos: usize, ended: bool, short: &str) -> (r: BodyRead)
    requires
        pos <= buf@.len(),
    ensures
        r@ == chunks_at(buf@, pos as int, ended, short@, Seq::empty()),
{
    let mut got: Vec<u8> = Vec::new();
    let mut at: usize = pos;
    let ghost all = chunks_at(buf@, pos as int, ended, short@, Seq::empty());
    loop
        invariant
            at <= buf@.len(),
            got@.len() <= MAX_BODY_BYTES,
            chunks_at(buf@, at as int, ended, short@, got@) == all,
            all == chunks_at(buf@, pos as int, ended, short@, Seq::empty()),
        decreases buf@.len() - at,
    {
        let (line, next) = match read_line(buf, at, MAX_CHUNK_LINE_BYTES, ended) {
            LineRead::Line(l, n) => (l, n),
            LineRead::More => return BodyRead::More,
            LineRead::Fault(e) => {
                return BodyRead::Fault(misread("read chunk size: ", e.message().as_str()));
            },
        };
        let size: i64 = match parse_chunk_size(line.as_str()) {
            Some(n) => n,
            None => {
                return BodyRead::Fault(
                    misread("invalid chunk size: ", debug_string(line.as_str()).as_str()),
                );
            },
        };
        if size == 0 {
            return read_trailers(buf, next, ended, got);
        }
        let sum: u64 = got.len() as u64 + size as u64;
        if sum > MAX_BODY_BYTES as u64 {
            let mut m = "chunked body cumulative ".to_owned();
            push_dec(&mut m, sum);
            m.append(" exceeds ");
            push_dec(&mut m, MAX_BODY_BYTES as u64);
            m.append(" max");
            return BodyRead::Fault(ResponseError { unexpected_eof: false, msg: m });
        }
        let n: usize = size as usize;
        let left: usize = buf.len() - next;
        if left < n {
            return if ended {
                BodyRead::Fault(misread("read chunk body: ", short))
            } else {
                BodyRead::More
            };
        }
        if left < n + 2 {
            return if ended {
                BodyRead::Fault(misread("skip chunk CRLF: ", short))
            } else {
                BodyRead::More
            };
        }
        let ghost before = got@;
        let part = slice_subrange(buf, next, next + n);
        got.extend_from_slice(part);
        assert(got@ =~= before + buf@.subrange(next as int, next + n));
        at = next + n + 2;
    }
}

fn response_content_length(cl: &str) -> (r: Result<i64, ResponseError>)
    ensures
        match r {
            Ok(n) => 0 <= n <= MAX_BODY_BYTES && response_length(cl@) == Ok::<int, Seq<char>>(
                n as int,
            ),
            Err(e) => !e.unexpected_eof && response_length(cl@) == Err::<int, Seq<char>>(e.msg@),
        },
{
    match parse_i64(chars_of(cl).as_slice()) {
        Some(n) => {
            if n > MAX_BODY_BYTES {
                let mut m = "httpx: response body ".to_owned();
                push_dec(&mut m, n as u64);
                m.append(" exceeds ");
                push_dec(&mut m, MAX_BODY_BYTES as u64);
                m.append(" max");
                return Err(ResponseError { unexpected_eof: false, msg: m });
            }
            if n >= 0 {
                return Ok(n);
            }
        },
        None => {},
    }
    Err(misread("httpx: invalid response Content-Length: ", cl))
}

fn read_response_body(buf: &[u8], pos: usize, ended: bool, short: &str, h: &Header) -> (r: BodyRead)
    requires
        pos <= buf@.len(),
    ensures
        r@ == response_body_at(buf@, pos as int, ended, short@, h@),
{
    match h.get("Transfer-Encoding") {
        Some(te) => {
            if chars_eq_no_case(chars_of(te).as_slice(), "chunked") {
                return read_chunked_body(buf, pos, ended, short);
            }
            return BodyRead::Done(Vec::new());
        },
        None => {},
    }
    match h.get("Content-Length") {
        Some(cl) => match response_content_length(cl) {
            Err(e) => BodyRead::Fault(e),
            Ok(n) => {
                let want: usize = n as usize;
                if buf.len() - pos < want {
                    if ended {
                        let mut m = "httpx: read response body: ".to_owned();
                        m.append(short);
                        BodyRead::Fault(ResponseError { unexpected_eof: true, msg: m })
                    } else {
                        BodyRead::More
                    }
                } else {
                    BodyRead::Done(slice_to_vec(slice_subrange(buf, pos, pos + want)))
                }
            },
        },
        None => BodyRead::Done(Vec::new()),
    }
}

/// Reads the response at the beginning of `buf`; `short` describes a connection that ended
/// within a body.
pub fn read_response(buf: &[u8], ended: bool, short: &str) -> (r: ResponseRead)
    ensures
        r@ == response_at(buf@, ended, short@),
{
    let (line, next) = match read_line(buf, 0, MAX_REQUEST_LINE_BYTES, ended) {
        LineRead::Line(l, n) => (l, n),
        LineRead::More => return ResponseRead::More,
        LineRead::Fault(e) => return ResponseRead::Fault(io_err_from_read_request(&e)),
    };
    let status_code: u16 = match parse_status_line(line.as_str()) {
        Ok(n) => n,
        Err(e) => {
            return ResponseRead::Fault(
                ResponseError { unexpected_eof: false, msg: e.message() },
            );
        },
    };
    let (header, next) = match read_headers(buf, next, ended) {
        FieldsRead::Done(h, _, n) => (h, n),
        FieldsRead::More => return ResponseRead::More,
        FieldsRead::Fault(e) => return ResponseRead::Fault(io_err_from_read_request(&e)),
    };
    match read_response_body(buf, next, ended, short, &header) {
        BodyRead::More => ResponseRead::More,
        BodyRead::Fault(e) => ResponseRead::Fault(e),
        BodyRead::Done(body) => ResponseRead::Done(ClientResponse { status_code, header, body }),
    }
}

} // verus!
