//! Rules of the server: time limits, the answer to a request that breaks the protocol, and
//! shutting down. Times are in nanoseconds.

use vstd::prelude::*;
use vstd::string::*;
use vstd::utf8::*;

use super::response;
use super::response::ResponseWriterImpl;
use super::{
    status_text, Handler, HttpProtocolError, Reply, Request, ResponseWriter, STATUS_BAD_REQUEST,
    STATUS_OK,
};
use crate::text;
use crate::text::{push_bytes, push_dec};

verus! {

/// No read or write waits less than this.
pub const MIN_WAIT: u64 = 1000000;

/// The server was shut down.
#[derive(Debug, Clone, Copy, PartialEq, Eq, Structural)]
pub struct ServerClosedError;

impl ServerClosedError {
    /// The text shown for the error.
    pub fn message(&self) -> (out: String)
        ensures
            out@ == "httpx: server closed"@,
    {
        "httpx: server closed".to_owned()
    }
}

/// Handlers were still at work when the time for shutting down was over.
#[derive(Debug, Clone, Copy, PartialEq, Eq, Structural)]
pub enum ShutdownError {
    Timeout,
}

impl ShutdownError {
    /// The text shown for the error.
    pub fn message(&self) -> (out: String)
        ensures
            out@ == "shutdown timeout"@,
    {
        "shutdown timeout".to_owned()
    }
}

/// How long a read or write may wait.
#[derive(Debug, Clone, Copy, PartialEq, Eq, Structural)]
pub enum Wait {
    Unlimited,
    /// The time is over.
    Expired,
    For(u64),
}

/// What is left of a limit at `elapsed`, never below `MIN_WAIT`.
pub open spec fn wait_left(limit: Option<u64>, elapsed: u64) -> Wait {
    match limit {
        None => Wait::Unlimited,
        Some(t) => if elapsed >= t {
            Wait::Expired
        } else if t - elapsed < MIN_WAIT {
            Wait::For(MIN_WAIT)
        } else {
            Wait::For((t - elapsed) as u64)
        },
    }
}

/// The limit for reading a request: the one for all of it and, until the head was read, also
/// the one for the head.
pub open spec fn read_limit(
    read_timeout: Option<u64>,
    read_header_timeout: Option<u64>,
    headers_done: bool,
) -> Option<u64> {
    match (read_timeout, read_header_timeout) {
        (Some(a), Some(b)) => if headers_done || a <= b {
            Some(a)
        } else {
            Some(b)
        },
        (Some(a), None) => Some(a),
        (None, Some(b)) => if headers_done {
            None
        } else {
            Some(b)
        },
        (None, None) => None,
    }
}

/// How long the next read or write may wait, `elapsed` after the limit began to run.
pub fn io_wait(limit: Option<u64>, elapsed: u64) -> (r: Wait)
    ensures
        r == wait_left(limit, elapsed),
{
    match limit {
        None => Wait::Unlimited,
        Some(t) => if elapsed >= t {
            Wait::Expired
        } else if t - elapsed < MIN_WAIT {
            Wait::For(MIN_WAIT)
        } else {
            Wait::For(t - elapsed)
        },
    }
}

/// How long the next read of a request may wait, `elapsed` after the connection was made.
pub fn refresh_read_timeout(
    read_timeout: Option<u64>,
    read_header_timeout: Option<u64>,
    headers_done: bool,
    elapsed: u64,
) -> (r: Wait)
    ensures
        r == wait_left(read_limit(read_timeout, read_header_timeout, headers_done), elapsed),
{
    let mut limit: Option<u64> = read_timeout;
    if !headers_done {
        match read_header_timeout {
            Some(b) => {
                limit = match limit {
                    Some(a) => if a <= b {
                        Some(a)
                    } else {
                        Some(b)
                    },
                    None => Some(b),
                };
            },
            None => {},
        }
    }
    io_wait(limit, elapsed)
}

/// What `h` may send in answer to `r`: a response that it wrote, made complete.
pub open spec fn responds<H: Handler>(h: H, r: super::RequestView, out: Seq<u8>) -> bool {
    exists|after: Reply| #[trigger]
        h.answers(r, super::blank_reply(), after) && out == response::finished_wire(
            after.begun(STATUS_OK),
        )
}

/// Answers a request: all bytes of the response that the handler writes.
pub fn respond<H: Handler>(h: &H, r: &Request) -> (out: Vec<u8>)
    ensures
        responds(*h, r@, out@),
{
    let mut w = ResponseWriterImpl::new();
    h.serve_http(&mut w, r);
    w.finish()
}

/// The limit for writing a response; zero means none.
pub fn write_limit(write_timeout: Option<u64>) -> (r: Option<u64>)
    ensures
        r == match write_timeout {
            Some(t) => if t > 0 {
                Some(t)
            } else {
                None
            },
            None => None,
        },
{
    match write_timeout {
        Some(t) => if t > 0 {
            Some(t)
        } else {
            None
        },
        None => None,
    }
}

/// The address to listen on, port 80 where none is given.
pub fn listen_addr(addr: &str) -> (out: String)
    ensures
        out@ == if addr@.len() == 0 {
            ":80"@
        } else {
            addr@
        },
{
    if addr.is_empty() {
        ":80".to_owned()
    } else {
        addr.to_owned()
    }
}

/// The answer to a request that breaks the protocol.
pub open spec fn protocol_error_reply(status: u16) -> Seq<char> {
    let code = if status == 0 {
        STATUS_BAD_REQUEST
    } else {
        status
    };
    "HTTP/1.1 "@ + text::dec(code as nat) + " "@ + (if super::reason(code).len() == 0 {
        "Error"@
    } else {
        super::reason(code)
    }) + "\r\nConnection: close\r\nContent-Length: 0\r\n\r\n"@
}

/// The bytes of the answer to a request that breaks the protocol.
pub fn write_protocol_error(err: &HttpProtocolError) -> (out: Vec<u8>)
    ensures
        out@ == encode_utf8(protocol_error_reply(err.status)),
{
    let code: u16 = if err.status == 0 {
        STATUS_BAD_REQUEST
    } else {
        err.status
    };
    let mut t = "HTTP/1.1 ".to_owned();
    push_dec(&mut t, code as u64);
    t.append(" ");
    let reason = status_text(code);
    t.append(if reason.is_empty() { "Error" } else { reason });
    t.append("\r\nConnection: close\r\nContent-Length: 0\r\n\r\n");
    let mut out: Vec<u8> = Vec::new();
    push_bytes(&mut out, t.as_str());
    out
}

/// The bytes of the answer where a handler failed.
pub fn handler_failed() -> (out: Vec<u8>)
    ensures
        out@ == encode_utf8(
            "HTTP/1.1 500 Internal Server Error\r\nConnection: close\r\nContent-Length: 0\r\n\r\n"@,
        ),
{
    let mut out: Vec<u8> = Vec::new();
    push_bytes(
        &mut out,
        "HTTP/1.1 500 Internal Server Error\r\nConnection: close\r\nContent-Length: 0\r\n\r\n",
    );
    out
}

/// What to do after accepting a connection failed.
#[derive(Debug, Clone, Copy, PartialEq, Eq, Structural)]
pub enum AcceptNext {
    /// The server was shut down.
    Closed,
    /// Try again.
    Again,
    /// Give up.
    Fail,
}

/// Any failure ends a server that is closing; else one that will pass is ignored.
pub fn after_accept_failure(closing: bool, transient: bool) -> (r: AcceptNext)
    ensures
        r == if closing {
            AcceptNext::Closed
        } else if transient {
            AcceptNext::Again
        } else {
            AcceptNext::Fail
        },
{
    if closing {
        AcceptNext::Closed
    } else if transient {
        AcceptNext::Again
    } else {
        AcceptNext::Fail
    }
}

/// Whether a shutdown is complete (`Some(Ok)`), failed, or has to wait on (`None`).
pub fn shutdown_step(active: usize, timeout: Option<u64>, elapsed: u64) -> (r: Option<
    Result<(), ShutdownError>,
>)
    ensures
        r == if active == 0 {
            Some(Ok::<(), ShutdownError>(()))
        } else {
            match timeout {
                Some(t) => if elapsed >= t {
                    Some(Err(ShutdownError::Timeout))
                } else {
                    None
                },
                None => None,
            }
        },
{
    if active == 0 {
        return Some(Ok(()));
    }
    match timeout {
        Some(t) => if elapsed >= t {
            Some(Err(ShutdownError::Timeout))
        } else {
            None
        },
        None => None,
    }
}

/// Until the head was read, the limit for reading is no later than afterwards.
pub proof fn law_head_limit_is_tighter(read_timeout: Option<u64>, read_header_timeout: Option<u64>)
    ensures
        match (
            read_limit(read_timeout, read_header_timeout, false),
            read_limit(read_timeout, read_header_timeout, true),
        ) {
            (Some(a), Some(b)) => a <= b,
            (None, Some(_)) => false,
            _ => true,
        },
{
}

} // verus!
