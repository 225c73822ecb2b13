//! Writing a response.

use vstd::prelude::*;
use vstd::string::*;
use vstd::utf8::*;

use super::header;
use super::{status_text, Header, Reply, ResponseWriter, STATUS_OK};
use crate::text;
use crate::text::{push_bytes, push_dec, push_hex};

verus! {

/// The lines of the first `n` values of a field.
pub open spec fn value_lines(name: Seq<char>, values: Seq<Seq<char>>, n: nat) -> Seq<char>
    decreases n,
{
    if n == 0 || n > values.len() {
        Seq::empty()
    } else {
        value_lines(name, values, (n - 1) as nat) + name + ": "@ + values[n - 1] + "\r\n"@
    }
}

/// The lines of the first `n` fields.
pub open spec fn field_lines(es: Seq<header::FieldView>, n: nat) -> Seq<char>
    decreases n,
{
    if n == 0 || n > es.len() {
        Seq::empty()
    } else {
        field_lines(es, (n - 1) as nat) + value_lines(
            es[n - 1].0,
            es[n - 1].1,
            es[n - 1].1.len(),
        )
    }
}

/// All header lines, in the order of the names, and the empty line behind them.
pub open spec fn header_text(h: Map<Seq<char>, Seq<Seq<char>>>) -> Seq<char> {
    field_lines(header::listing(h), header::listing(h).len()) + "\r\n"@
}

/// The head of a response.
pub open spec fn head_text(status: u16, h: Map<Seq<char>, Seq<Seq<char>>>) -> Seq<char> {
    "HTTP/1.1 "@ + text::dec(status as nat) + " "@ + (if super::reason(status).len() == 0 {
        "Status"@
    } else {
        super::reason(status)
    }) + "\r\n"@ + header_text(h)
}

/// A chunk: its size in hex, its bytes, and a line end behind each.
pub open spec fn chunk(data: Seq<u8>) -> Seq<u8> {
    encode_utf8(text::hex(data.len()) + "\r\n"@) + data + encode_utf8("\r\n"@)
}

/// The pieces of a body as they are sent.
pub open spec fn body_bytes(pieces: Seq<Seq<u8>>, chunked: bool) -> Seq<u8>
    decreases pieces.len(),
{
    if pieces.len() == 0 {
        Seq::empty()
    } else {
        body_bytes(pieces.drop_last(), chunked) + if chunked {
            chunk(pieces.last())
        } else {
            pieces.last()
        }
    }
}

/// Everything sent for a response so far.
pub open spec fn wire(r: Reply) -> Seq<u8> {
    match r.sent {
        None => Seq::empty(),
        Some(s) => encode_utf8(head_text(s.status, s.header)) + body_bytes(r.pieces, s.chunked),
    }
}

/// Everything sent for a response that is complete.
pub open spec fn finished_wire(r: Reply) -> Seq<u8> {
    if r.sent matches Some(s) && s.chunked {
        wire(r) + encode_utf8("0\r\n\r\n"@)
    } else {
        wire(r)
    }
}

/// Appends the header lines and the empty line behind them.
pub fn push_header(out: &mut String, h: &Header)
    ensures
        final(out)@ == old(out)@ + header_text(h@),
{
    let es = h.iter();
    let ghost fs = header::listing(h@);
    let mut i: usize = 0;
    assert(out@ =~= old(out)@ + field_lines(fs, 0));
    while i < es.len()
        invariant
            i <= es.len(),
            header::entry_views(es@) == fs,
            out@ == old(out)@ + field_lines(fs, i as nat),
        decreases es.len() - i,
    {
        let e = &es[i];
        assert(fs[i as int] == (e.0@, text::string_views(e.1@)));
        let ghost before = out@;
        let ghost vs = text::string_views(e.1@);
        let mut j: usize = 0;
        assert(out@ =~= before + value_lines(e.0@, vs, 0));
        while j < e.1.len()
            invariant
                j <= e.1.len(),
                vs == text::string_views(e.1@),
                out@ == before + value_lines(e.0@, vs, j as nat),
            decreases e.1.len() - j,
        {
            out.append(e.0.as_str());
            out.append(": ");
            out.append(e.1[j].as_str());
            out.append("\r\n");
            j += 1;
            assert(vs[j - 1] == e.1@[j - 1]@);
            assert(out@ =~= before + value_lines(e.0@, vs, j as nat));
        }
        i += 1;
        assert(out@ =~= old(out)@ + field_lines(fs, i as nat));
    }
    assert(header::entry_views(es@).len() == es@.len());
    out.append("\r\n");
    assert(out@ =~= old(out)@ + header_text(h@));
}

/// Appends a chunk and returns the number of bytes in it.
pub fn write_chunk(out: &mut Vec<u8>, data: &[u8]) -> (n: usize)
    ensures
        final(out)@ == old(out)@ + chunk(data@),
        n == data@.len(),
{
    let mut size = String::new();
    push_hex(&mut size, data.len() as u64);
    size.append("\r\n");
    assert(size@ =~= text::hex(data@.len()) + "\r\n"@);
    push_bytes(out, size.as_str());
    let ghost before = out@;
    out.extend_from_slice(data);
    assert(out@ =~= before + data@);
    push_bytes(out, "\r\n");
    assert(out@ =~= old(out)@ + chunk(data@));
    data.len()
}

/// Writes a response into a buffer.
pub struct ResponseWriterImpl {
    out: Vec<u8>,
    headers: Header,
    wrote_header: bool,
    status: u16,
    chunked: bool,
    /// The response as it stands.
    state: Ghost<Reply>,
}

impl ResponseWriterImpl {
    /// The buffer holds what is sent for the response as it stands, and the other parts agree
    /// with it.
    #[verifier::type_invariant]
    spec fn holds_wire(&self) -> bool {
        &&& self.out@ == wire(self.state@)
        &&& self.headers@ == self.state@.header
        &&& self.wrote_header == (self.state@.sent is Some)
        &&& self.state@.sent matches Some(s) ==> self.status == s.status && self.chunked
            == s.chunked
        &&& self.state@.sent is None ==> self.status == 0 && !self.chunked
            && self.state@.pieces.len() == 0
    }

    /// A response of which nothing is written yet.
    pub fn new() -> (w: Self)
        ensures
            w.reply() == super::blank_reply(),
    {
        ResponseWriterImpl {
            out: Vec::new(),
            headers: Header::new(),
            wrote_header: false,
            status: 0,
            chunked: false,
            state: Ghost(super::blank_reply()),
        }
    }

    /// Completes the response once the handler has returned, and gives all of its bytes.
    pub fn finish(&mut self) -> (out: Vec<u8>)
        ensures
            final(self).reply() == old(self).reply().begun(STATUS_OK),
            out@ == finished_wire(final(self).reply()),
    {
        self.write_header(STATUS_OK);
        proof {
            use_type_invariant(&*self);
        }
        let mut out: Vec<u8> = Vec::new();
        out.extend_from_slice(self.out.as_slice());
        assert(out@ =~= wire(self.reply()));
        if self.chunked {
            push_bytes(&mut out, "0\r\n\r\n");
        }
        out
    }

    /// The status that went out, 0 before.
    pub fn status(&self) -> (r: u16)
        ensures
            r == match self.reply().sent {
                Some(s) => s.status,
                None => 0,
            },
    {
        proof {
            use_type_invariant(self);
        }
        self.status
    }

    /// Whether the body is sent in chunks.
    pub fn is_chunked(&self) -> (r: bool)
        ensures
            r == match self.reply().sent {
                Some(s) => s.chunked,
                None => false,
            },
    {
        proof {
            use_type_invariant(self);
        }
        self.chunked
    }

    /// Takes the response out and leaves a blank one.
    fn take(&mut self) -> (w: Self)
        ensures
            w == *old(self),
    {
        let mut w = ResponseWriterImpl::new();
        std::mem::swap(self, &mut w);
        w
    }
}

impl ResponseWriter for ResponseWriterImpl {
    closed spec fn reply(&self) -> Reply {
        self.state@
    }

    fn set_header(&mut self, key: &str, value: &str) {
        let w = self.take();
        proof {
            use_type_invariant(&w);
        }
        let ghost state = w.state@.with_field(key@, value@);
        let mut headers = w.headers;
        headers.set(key, value);
        *self = ResponseWriterImpl {
            out: w.out,
            headers,
            wrote_header: w.wrote_header,
            status: w.status,
            chunked: w.chunked,
            state: Ghost(state),
        };
    }

    fn write_header(&mut self, status: u16) {
        if self.wrote_header {
            proof {
                use_type_invariant(&*self);
            }
            return;
        }
        let w = self.take();
        proof {
            use_type_invariant(&w);
        }
        let ghost state = w.state@.begun(status);
        let mut out = w.out;
        let mut headers = w.headers;
        headers.set("Connection", "close");
        let chunked = headers.get("Content-Length").is_none();
        if chunked {
            headers.set("Transfer-Encoding", "chunked");
        }
        let mut head = "HTTP/1.1 ".to_owned();
        push_dec(&mut head, status as u64);
        head.append(" ");
        let text = status_text(status);
        head.append(if text.is_empty() { "Status" } else { text });
        head.append("\r\n");
        push_header(&mut head, &headers);
        assert(head@ =~= head_text(status, headers@));
        push_bytes(&mut out, head.as_str());
        assert(out@ =~= wire(state));
        *self = ResponseWriterImpl {
            out,
            headers,
            wrote_header: true,
            status,
            chunked,
            state: Ghost(state),
        };
    }

    fn write(&mut self, data: &[u8]) -> (n: usize) {
        self.write_header(STATUS_OK);
        if data.len() == 0 {
            return 0;
        }
        let w = self.take();
        proof {
            use_type_invariant(&w);
        }
        let ghost state = w.state@.written(data@);
        let mut out = w.out;
        if w.chunked {
            write_chunk(&mut out, data);
        } else {
            out.extend_from_slice(data);
        }
        assert(state.pieces.drop_last() =~= w.state@.pieces);
        assert(out@ =~= wire(state));
        *self = ResponseWriterImpl {
            out,
            headers: w.headers,
            wrote_header: w.wrote_header,
            status: w.status,
            chunked: w.chunked,
            state: Ghost(state),
        };
        data.len()
    }

    fn flush(&mut self) {
        self.write_header(STATUS_OK);
    }
}

} // verus!
