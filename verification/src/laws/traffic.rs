//! Copies, filters, sockets and the rules of the server.

use vstd::prelude::*;
use vstd::string::*;
use vstd::utf8::*;

use crate::bpf;
use crate::bpf::{bpf_18022, bpf_6672};
use crate::dedup;
use crate::dedup::Dedup;
use crate::ffi::{after_read_failure, iface_index, recv_failure, FfiError, ReadFailed, RetryErrnos,
    SockFilter};
use crate::httpx::client;
use crate::httpx::client::{after_dial_round, split_url, unless_cancelled, Client, DialNext};
use crate::httpx::exchange;
use crate::httpx::header;
use crate::httpx::parse::{parse_request_line, read_request, split_path_query, RequestRead};
use crate::httpx::server::{after_accept_failure, handler_failed, io_wait, listen_addr,
    refresh_read_timeout, shutdown_step, write_limit, write_protocol_error, AcceptNext,
    ShutdownError, Wait};
use crate::httpx::{HttpProtocolError, ReadRequestError};
use crate::listen18022;
use crate::log::{compose, epoch_parts, Tm};
use crate::text;

verus! {

// ---------------------------------------------------------------------------
// Copies
// ---------------------------------------------------------------------------

/// A key is known where it was noted at most 200 milliseconds ago. One that is known keeps its
/// time; one that is not is noted now, behind the others, and of 64 notes the oldest goes for it.
pub proof fn law_copies_are_known(d: &mut Dedup, key: u64, now: u64, r: bool)
    requires
        call_ensures(Dedup::seen, (d, key, now), r),
        old(d)@.len() <= 64,
    ensures
        r <==> exists|i: int|
            0 <= i < old(d)@.len() && (#[trigger] old(d)@[i]).0 == key && now - old(d)@[i].1 <= 200,
        r ==> final(d)@ == old(d)@,
        !r ==> final(d)@.len() > 0 && final(d)@.last() == (key, now),
        !r && old(d)@.len() < 64 ==> final(d)@.drop_last() == old(d)@,
        !r && old(d)@.len() == 64 ==> final(d)@.drop_last() == old(d)@.drop_first(),
{
    if !r {
        if old(d)@.len() < 64 {
            assert(final(d)@.drop_last() =~= old(d)@);
        } else {
            assert(final(d)@.drop_last() =~= old(d)@.drop_first());
        }
    }
}

/// The hash of bytes goes byte by byte: each is mixed into the lowest one, and the whole is
/// multiplied by the prime, from the offset basis on.
pub proof fn law_hash(a: &[u8], b: &[u8], x: u64, y: u64)
    requires
        call_ensures(dedup::fnv1a_64, (a,), x),
        call_ensures(dedup::fnv1a_64, (b,), y),
        b@.len() == a@.len() + 1,
        b@.drop_last() == a@,
    ensures
        a@.len() == 0 ==> x == 0xcbf2_9ce4_8422_2325,
        y == ((x ^ (b@.last() as u64)) * 0x100_0000_01b3) % 0x1_0000_0000_0000_0000,
{
}

/// Of a payload the first 64 bytes count, and no further ones.
pub proof fn law_key_of_long_payload(
    ip: [u8; 4],
    port: u16,
    a: &[u8],
    b: &[u8],
    x: u64,
    y: u64,
)
    requires
        call_ensures(listen18022::dedup_key, (ip, port, a), x),
        call_ensures(listen18022::dedup_key, (ip, port, b), y),
        a@.len() >= 64,
        b@.len() >= 64,
        a@.take(64) == b@.take(64),
    ensures
        x == y,
{
    assert(a@.len() == 64 ==> a@.take(64) =~= a@);
    assert(b@.len() == 64 ==> b@.take(64) =~= b@);
}

// ---------------------------------------------------------------------------
// Filters
// ---------------------------------------------------------------------------

/// A packet of this protocol in IPv4, whole, with at least `n` bytes behind its IP header.
pub open spec fn whole(pkt: Seq<u8>, protocol: u8, n: int) -> bool {
    &&& pkt.len() >= 34
    &&& pkt[12] == 0x08 && pkt[13] == 0x00
    &&& pkt[23] == protocol
    &&& pkt[20] % 64 == 0 && pkt[21] == 0
    &&& pkt.len() >= 14 + pkt[14] % 16 * 4 + n
}

/// The filters let through what goes to port 6672, and what goes to or comes from port 18022, whole;
/// a packet for another port is dropped.
#[verifier::rlimit(40)]
pub proof fn law_filters(p: [SockFilter; 11], q: [SockFilter; 13], pkt: Seq<u8>)
    requires
        call_ensures(bpf_6672, (), p),
        call_ensures(bpf_18022, (), q),
    ensures
        ({
            let at = 14 + pkt[14] % 16 * 4;
            let src = pkt[at] * 256 + pkt[at + 1];
            let dst = pkt[at + 2] * 256 + pkt[at + 3];
            &&& whole(pkt, 17, 4) ==> bpf::passes(p@, 0, 0, 0, pkt) == (if dst == 6672 {
                0xffffu32
            } else {
                0
            })
            &&& whole(pkt, 6, 4) ==> bpf::passes(q@, 0, 0, 0, pkt) == (if src == 18022 || dst
                == 18022 {
                0xffffu32
            } else {
                0
            })
            &&& pkt.len() >= 34 && pkt[23] != 17 ==> bpf::passes(p@, 0, 0, 0, pkt) == 0
            &&& pkt.len() >= 34 && pkt[23] != 6 ==> bpf::passes(q@, 0, 0, 0, pkt) == 0
        }),
{
    bpf::law_udp_filter(pkt);
    bpf::law_tcp_filter(pkt);
    assert(whole(pkt, 17, 4) || whole(pkt, 6, 4) ==> bpf::half_word(pkt, 20) % 0x4000 == 0);
}

// ---------------------------------------------------------------------------
// Sockets
// ---------------------------------------------------------------------------

/// An interface is known by the index that the system gives; 0 is none, and so is a name with a
/// zero character.
pub proof fn law_interfaces(iface: &str, index: u32, r: Result<u32, FfiError>)
    requires
        call_ensures(iface_index, (iface, index), r),
        forall|i: int| 0 <= i < iface@.len() ==> iface@[i] != '\0',
    ensures
        index > 0 ==> (r matches Ok(n) && n == index),
        index == 0 ==> (r matches Err(FfiError::Interface(m)) && m@ == "if_nametoindex("@ + iface@
            + ") failed"@),
{
    text::lemma_find_none(iface@, '\0');
}

/// A read that only ran out of time or was interrupted is repeated, even while closing; any other
/// failure ends the reading, with an error unless closing.
pub proof fn law_failed_reads(
    errno: i32,
    codes: RetryErrnos,
    e: FfiError,
    closing: bool,
    n: ReadFailed,
)
    requires
        call_ensures(recv_failure, (errno, codes), e),
        call_ensures(after_read_failure, (&e, codes, closing), n),
    ensures
        ({
            let again = errno == codes.again || errno == codes.would_block || errno
                == codes.interrupted;
            &&& n is Again <==> again
            &&& n is Stop <==> !again && closing
            &&& n is Fail <==> !again && !closing
            &&& e matches FfiError::Syscall { stage, errno: m } && m == errno
        }),
{
}

// ---------------------------------------------------------------------------
// Log
// ---------------------------------------------------------------------------

/// Digits filled up with zeros on the left.
pub open spec fn two(n: int) -> Seq<char> {
    if n < 10 {
        seq!['0'] + text::dec(n as nat)
    } else {
        text::dec(n as nat)
    }
}

pub open spec fn three(n: int) -> Seq<char> {
    if n < 10 {
        seq!['0', '0'] + text::dec(n as nat)
    } else if n < 100 {
        seq!['0'] + text::dec(n as nat)
    } else {
        text::dec(n as nat)
    }
}

proof fn lemma_padded(n: int)
    requires
        0 <= n < 1000,
    ensures
        n < 100 ==> text::dec_padded(n, 2) == two(n),
        text::dec_padded(n, 3) == three(n),
{
    reveal_with_fuel(text::dec, 4);
    let d = text::dec(n as nat);
    assert(d.len() == (if n < 10 {
        1int
    } else if n < 100 {
        2
    } else {
        3
    }));
    if n < 100 {
        assert(text::dec_padded(n, 2) =~= two(n));
    }
    assert(text::dec_padded(n, 3) =~= three(n));
}

/// A line has the date with the month counted from 1, the time of day and the milliseconds, each
/// with all its digits, and then the message.
#[verifier::rlimit(40)]
pub proof fn law_log_lines(tm: Tm, millis: u32, msg: &str, out: String, since: (i64, u32), e: (
    i64,
    u32,
))
    requires
        call_ensures(compose, (Some(tm), millis, msg), out),
        call_ensures(epoch_parts, (Some(since),), e),
        0 <= tm.tm_mon < 12,
        1 <= tm.tm_mday <= 31,
        0 <= tm.tm_hour < 24,
        0 <= tm.tm_min < 60,
        0 <= tm.tm_sec <= 60,
        millis < 1000,
    ensures
        out@ == "dooraccess-rs: "@ + text::dec_padded(tm.tm_year + 1900, 4) + "/"@ + two(
            tm.tm_mon + 1,
        ) + "/"@ + two(tm.tm_mday as int) + " "@ + two(tm.tm_hour as int) + ":"@ + two(
            tm.tm_min as int,
        ) + ":"@ + two(tm.tm_sec as int) + "."@ + three(millis as int) + " "@ + msg@,
        e.0 == since.0,
        e.1 == since.1 / 1_000_000,
{
    lemma_padded(tm.tm_mon + 1);
    lemma_padded(tm.tm_mday as int);
    lemma_padded(tm.tm_hour as int);
    lemma_padded(tm.tm_min as int);
    lemma_padded(tm.tm_sec as int);
    lemma_padded(millis as int);
}

// ---------------------------------------------------------------------------
// Requests
// ---------------------------------------------------------------------------

/// A request line is its method, its target and its version with one space between them.
pub proof fn law_request_line<'a>(
    line: &'a str,
    r: Result<(&'a str, &'a str, &'a str), ReadRequestError>,
    m: Seq<char>,
    t: Seq<char>,
    v: Seq<char>,
)
    requires
        call_ensures(parse_request_line, (line,), r),
        m.len() > 0 && t.len() > 0 && v.len() > 0,
        forall|i: int| 0 <= i < m.len() ==> m[i] != ' ',
        forall|i: int| 0 <= i < t.len() ==> t[i] != ' ',
        line@ == m + seq![' '] + t + seq![' '] + v,
    ensures
        r matches Ok((a, b, c)) && a@ == m && b@ == t && c@ == v,
{
    let s = line@;
    let n = m.len() as int;
    assert forall|i: int| 0 <= i < n implies s[i] != ' ' by {
        assert(s[i] == m[i]);
    }
    text::lemma_find_at(s, ' ', n);
    assert(s.take(n) =~= m);
    let rest = s.skip(n + 1);
    assert(rest =~= t + seq![' '] + v);
    assert forall|i: int| 0 <= i < t.len() implies rest[i] != ' ' by {
        assert(rest[i] == t[i]);
    }
    text::lemma_find_at(rest, ' ', t.len() as int);
    assert(rest.take(t.len() as int) =~= t);
    assert(rest.skip(t.len() as int + 1) =~= v);
}

/// A request that a client sends is read by the server as it was: method, path, query, fields and
/// body, in a first line of at most 8192 bytes and with a body of at most 1048576.
pub proof fn law_requests_are_read(
    buf: &[u8],
    r: RequestRead,
    method: Seq<char>,
    path: Seq<char>,
    query: Seq<char>,
    es: Seq<header::FieldView>,
    body: Seq<u8>,
    ended: bool,
)
    requires
        call_ensures(read_request, (buf, ended), r),
        method == "GET"@ || method == "POST"@,
        path.len() > 0,
        forall|i: int|
            0 <= i < path.len() ==> #[trigger] path[i] != ' ' && path[i] != '\n' && path[i] != '?',
        forall|i: int| 0 <= i < query.len() ==> #[trigger] query[i] != ' ' && query[i] != '\n',
        encode_utf8(exchange::request_line(method, path + seq!['?'] + query)).len() + 2 <= 8192,
        exchange::plain_fields(es),
        header::field(header::map_of(es), "Host"@) matches Some(h) && h.len() > 0,
        header::field(header::map_of(es), "Content-Length"@) == Some(text::dec(body.len())),
        header::field(header::map_of(es), "Transfer-Encoding"@) is None,
        header::field(header::map_of(es), "Upgrade"@) is None,
        body.len() <= 1048576,
        buf@ == client::request_bytes(
            method,
            path + seq!['?'] + query,
            header::map_of(es),
            body,
        ),
    ensures
        r matches RequestRead::Done(q) && {
            &&& q.method@ == method
            &&& q.url.path@ == path
            &&& q.url.raw_query@ == query
            &&& q.header@ == header::map_of(es)
            &&& q.body@ == body
            &&& q.content_length == body.len()
            &&& q.host@ == header::field(header::map_of(es), "Host"@)->0
        },
{
    let target = path + seq!['?'] + query;
    let n = path.len() as int;
    assert forall|i: int| 0 <= i < target.len() implies #[trigger] target[i] != ' ' && target[i]
        != '\n' by {
        if i < n {
            assert(target[i] == path[i]);
        } else if i > n {
            assert(target[i] == query[i - n - 1]);
        }
    }
    assert forall|i: int| 0 <= i < n implies target[i] != '?' by {
        assert(target[i] == path[i]);
    }
    text::lemma_find_at(target, '?', n);
    assert(target.take(n) =~= path);
    assert(target.skip(n + 1) =~= query);
    exchange::law_request_reads_back(method, target, es, body, ended);
    assert(r@ is Done);
}

/// A target is split at its first `?` into path and query.
pub proof fn law_targets<'a>(target: &'a str, r: (&'a str, &'a str), path: Seq<char>, query: Seq<char>)
    requires
        call_ensures(split_path_query, (target,), r),
        forall|i: int| 0 <= i < path.len() ==> path[i] != '?',
        target@ == path + seq!['?'] + query || target@ == path && query.len() == 0,
    ensures
        r.0@ == path,
        r.1@ == query,
{
    let s = target@;
    if s == path {
        text::lemma_find_none(s, '?');
    } else {
        let n = path.len() as int;
        assert forall|i: int| 0 <= i < n implies s[i] != '?' by {
            assert(s[i] == path[i]);
        }
        text::lemma_find_at(s, '?', n);
        assert(s.take(n) =~= path);
        assert(s.skip(n + 1) =~= query);
    }
    reveal_strlit("");
}

/// A URL is split into the host with its port, 80 where it has none, and the target, `/` where it
/// has none.
pub proof fn law_url_parts(
    u: &str,
    r: Result<(String, String), String>,
    host: Seq<char>,
    target: Seq<char>,
)
    requires
        call_ensures(split_url, (u,), r),
        host.len() > 0,
        forall|i: int| 0 <= i < host.len() ==> host[i] != '/',
        target.len() > 0 ==> target[0] == '/',
        u@ == "http://"@ + host + target,
    ensures
        r matches Ok((h, t)) && h@ == (if exists|i: int| 0 <= i < host.len() && host[i] == ':' {
            host
        } else {
            host + ":80"@
        }) && t@ == (if target.len() > 0 {
            target
        } else {
            "/"@
        }),
{
    reveal_strlit("http://");
    let s = u@;
    assert(s.take(7) =~= "http://"@);
    let rest = s.skip(7);
    assert(rest =~= host + target);
    assert forall|i: int| 0 <= i < host.len() implies rest[i] != '/' by {
        assert(rest[i] == host[i]);
    }
    if target.len() > 0 {
        text::lemma_find_at(rest, '/', host.len() as int);
        assert(rest.take(host.len() as int) =~= host);
        assert(rest.skip(host.len() as int) =~= target);
    } else {
        assert(rest =~= host);
        text::lemma_find_none(rest, '/');
    }
    text::lemma_find(host, ':');
    if !(exists|i: int| 0 <= i < host.len() && host[i] == ':') {
        text::lemma_find_none(host, ':');
    }
}

// ---------------------------------------------------------------------------
// Limits
// ---------------------------------------------------------------------------

/// A wait ends when the limit is over, and never lasts less than a millisecond before that.
pub proof fn law_waits(limit: Option<u64>, elapsed: u64, w: Wait)
    requires
        call_ensures(io_wait, (limit, elapsed), w),
    ensures
        w is Unlimited <==> limit is None,
        w is Expired <==> (limit matches Some(t) && elapsed >= t),
        w matches Wait::For(n) ==> n >= 1_000_000 && (n == (limit->0) - elapsed || n == 1_000_000
            && (limit->0) - elapsed < 1_000_000),
{
}

/// While the head is read both limits hold, and afterwards only the one for the whole request.
pub proof fn law_read_waits(
    all: Option<u64>,
    head: Option<u64>,
    done: bool,
    elapsed: u64,
    w: Wait,
)
    requires
        call_ensures(refresh_read_timeout, (all, head, done, elapsed), w),
    ensures
        w is Expired <==> (all matches Some(t) && elapsed >= t) || !done && (head matches Some(t)
            && elapsed >= t),
        w is Unlimited <==> all is None && (done || head is None),
{
}

/// A limit of zero is none, for the client as for the server; without a limit hosts are tried once,
/// and with one until it is over.
pub proof fn law_limits(
    t: Option<u64>,
    w: Option<u64>,
    c: Client,
    l: Option<u64>,
    elapsed: u64,
    n: DialNext,
    cancelled: bool,
    r: Result<(), String>,
)
    requires
        call_ensures(write_limit, (t,), w),
        call_ensures(Client::limit, (&c,), l),
        call_ensures(after_dial_round, (l, elapsed), n),
        call_ensures(unless_cancelled, (cancelled,), r),
    ensures
        w == (if t == Some(0u64) {
            None
        } else {
            t
        }),
        l == (if c.timeout == Some(0u64) {
            None
        } else {
            c.timeout
        }),
        n is Fail <==> l is None,
        n is TimedOut <==> (l matches Some(x) && elapsed >= x),
        n is Retry <==> (l matches Some(x) && elapsed < x),
        r is Err <==> cancelled,
{
}

/// The server goes on after a failure that will pass, and ends when it is closing; it is shut down
/// once no request is under way, and gives up waiting when the time is over.
pub proof fn law_server_ends(
    closing: bool,
    transient: bool,
    n: AcceptNext,
    active: usize,
    timeout: Option<u64>,
    elapsed: u64,
    s: Option<Result<(), ShutdownError>>,
    addr: &str,
    out: String,
)
    requires
        call_ensures(after_accept_failure, (closing, transient), n),
        call_ensures(shutdown_step, (active, timeout, elapsed), s),
        call_ensures(listen_addr, (addr,), out),
    ensures
        n is Closed <==> closing,
        n is Again <==> !closing && transient,
        n is Fail <==> !closing && !transient,
        s == Some(Ok::<(), ShutdownError>(())) <==> active == 0,
        s is None <==> active > 0 && !(timeout matches Some(t) && elapsed >= t),
        addr@.len() > 0 ==> out@ == addr@,
        addr@.len() == 0 ==> out@ == ":80"@,
{
}

/// A request that breaks the protocol is answered with the status of the fault, without a body, and
/// the connection is closed; 400 where the fault has no status.
pub proof fn law_protocol_errors(e: HttpProtocolError, out: Vec<u8>, f: Vec<u8>)
    requires
        call_ensures(write_protocol_error, (&e,), out),
        call_ensures(handler_failed, (), f),
    ensures
        e.status == 400 || e.status == 0 ==> out@ == encode_utf8(
            "HTTP/1.1 "@ + text::dec(400) + " "@ + "Bad Request"@
                + "\r\nConnection: close\r\nContent-Length: 0\r\n\r\n"@,
        ),
        e.status == 413 ==> out@ == encode_utf8(
            "HTTP/1.1 "@ + text::dec(413) + " "@ + "Payload Too Large"@
                + "\r\nConnection: close\r\nContent-Length: 0\r\n\r\n"@,
        ),
        e.status == 405 ==> out@ == encode_utf8(
            "HTTP/1.1 "@ + text::dec(405) + " "@ + "Method Not Allowed"@
                + "\r\nConnection: close\r\nContent-Length: 0\r\n\r\n"@,
        ),
        e.status == 799 ==> out@ == encode_utf8(
            "HTTP/1.1 "@ + text::dec(799) + " "@ + "Error"@
                + "\r\nConnection: close\r\nContent-Length: 0\r\n\r\n"@,
        ),
        f@ == encode_utf8(
            "HTTP/1.1 500 Internal Server Error\r\nConnection: close\r\nContent-Length: 0\r\n\r\n"@,
        ),
{
    reveal_strlit("Bad Request");
    reveal_strlit("Payload Too Large");
    reveal_strlit("Method Not Allowed");
    reveal_strlit("");
}

} // verus!
