//! Frames on the wire and what is read from them.

use vstd::prelude::*;
use vstd::string::*;
use vstd::utf8::*;

use super::forms;
use crate::dedup;
use crate::listen18022;
use crate::listen18022::{extract_tcp_payload, format_log, infer_direction, DetectedFrame,
    DetectedView, Direction, FrameFilter, Received, Subscription};
use crate::listen6672;
use crate::listen6672::{build_number_query_response, classify, extract_udp_payload, Dispatched,
    EventKind, Frame, ParseError};
use crate::orchestration::{FrameSeen, NumberAnswer, QueryReply, RingWatch};
use crate::text;
use crate::wire18022;
use crate::wire18022::parse_response_frame;

verus! {

// ---------------------------------------------------------------------------
// Packets
// ---------------------------------------------------------------------------

/// An IPv4 header of any length, with or without options.
pub open spec fn is_ip_header(h: Seq<u8>, protocol: u8, src: Seq<u8>, dst: Seq<u8>) -> bool {
    &&& 20 <= h.len() <= 60
    &&& h[0] % 16 * 4 == h.len()
    &&& h[9] == protocol
    &&& h.subrange(12, 16) == src
    &&& h.subrange(16, 20) == dst
}

/// A TCP header of any length, with or without options.
pub open spec fn is_tcp_header(h: Seq<u8>, src_port: u16, dst_port: u16) -> bool {
    &&& 20 <= h.len() <= 60
    &&& h[12] / 16 * 4 == h.len()
    &&& h[0] * 256 + h[1] == src_port
    &&& h[2] * 256 + h[3] == dst_port
}

/// A UDP header for a payload of `n` bytes.
pub open spec fn is_udp_header(h: Seq<u8>, src_port: u16, n: nat) -> bool {
    &&& h.len() == 8
    &&& h[0] * 256 + h[1] == src_port
    &&& h[4] * 256 + h[5] == 8 + n
}

/// An Ethernet frame that carries IPv4: the two hardware addresses, the type, and what follows.
pub open spec fn ethernet(macs: Seq<u8>, ip: Seq<u8>, rest: Seq<u8>) -> Seq<u8> {
    macs + seq![0x08u8, 0x00u8] + ip + rest
}

/// From a packet with an IPv4 and a TCP header, each of any length, exactly what stands behind the
/// headers is taken, with the addresses and ports that they give.
#[verifier::rlimit(40)]
pub proof fn law_tcp_payload_is_taken(
    frame: &[u8],
    macs: Seq<u8>,
    ip: Seq<u8>,
    tcp: Seq<u8>,
    p: Seq<u8>,
    src: Seq<u8>,
    dst: Seq<u8>,
    sp: u16,
    dp: u16,
    r: Option<(Vec<u8>, [u8; 4], [u8; 4], u16, u16)>,
)
    requires
        macs.len() == 12,
        is_ip_header(ip, 6, src, dst),
        is_tcp_header(tcp, sp, dp),
        frame@ == ethernet(macs, ip, tcp + p),
        call_ensures(extract_tcp_payload, (frame,), r),
    ensures
        r matches Some((payload, s, d, a, b)) && payload@ == p && s@ == src && d@ == dst && a == sp
            && b == dp,
{
    let f = frame@;
    let n = ip.len() as int;
    assert(f[12] == 8 && f[13] == 0);
    assert(f[14] == ip[0]);
    assert(f[23] == ip[9]);
    assert(f[14 + n] == tcp[0] && f[14 + n + 1] == tcp[1]);
    assert(f[14 + n + 2] == tcp[2] && f[14 + n + 3] == tcp[3]);
    assert(f[14 + n + 12] == tcp[12]);
    assert(f.subrange(26, 30) =~= ip.subrange(12, 16));
    assert(f.subrange(30, 34) =~= ip.subrange(16, 20));
    assert(f.skip(14 + n + tcp.len()) =~= p);
}

/// From a packet with an IPv4 header of any length and a UDP header, exactly the payload is taken:
/// bytes that only fill the packet up are not, nor is anything lost.
#[verifier::rlimit(40)]
pub proof fn law_udp_payload_is_taken(
    frame: &[u8],
    macs: Seq<u8>,
    ip: Seq<u8>,
    udp: Seq<u8>,
    p: Seq<u8>,
    padding: Seq<u8>,
    src: Seq<u8>,
    dst: Seq<u8>,
    sp: u16,
    r: Option<(Vec<u8>, [u8; 4], u16)>,
)
    requires
        macs.len() == 12,
        is_ip_header(ip, 17, src, dst),
        is_udp_header(udp, sp, p.len()),
        frame@ == ethernet(macs, ip, udp + p + padding),
        call_ensures(extract_udp_payload, (frame,), r),
    ensures
        r matches Some((payload, s, a)) && payload@ == p && s@ == src && a == sp,
{
    let f = frame@;
    let n = ip.len() as int;
    assert(f[12] == 8 && f[13] == 0);
    assert(f[14] == ip[0]);
    assert(f[23] == ip[9]);
    assert(f[14 + n] == udp[0] && f[14 + n + 1] == udp[1]);
    assert(f[14 + n + 4] == udp[4] && f[14 + n + 5] == udp[5]);
    assert(f.subrange(26, 30) =~= ip.subrange(12, 16));
    assert(f.subrange(14 + n + 8, 14 + n + 8 + p.len()) =~= p);
}

/// Nothing is taken from packets that are not IPv4, that carry another protocol, or that end
/// within their headers or before the length that they give.
pub proof fn law_other_packets_are_left(
    frame: &[u8],
    t: Option<(Vec<u8>, [u8; 4], [u8; 4], u16, u16)>,
    u: Option<(Vec<u8>, [u8; 4], u16)>,
)
    requires
        call_ensures(extract_tcp_payload, (frame,), t),
        call_ensures(extract_udp_payload, (frame,), u),
    ensures
        t is Some ==> frame@.len() >= 54 && frame@[12] == 0x08 && frame@[13] == 0x00 && frame@[23]
            == 6 && frame@.len() == 14 + frame@[14] % 16 * 4 + frame@[14 + frame@[14] % 16 * 4 + 12]
            / 16 * 4 + (t->0).0@.len(),
        u is Some ==> frame@.len() >= 42 && frame@[12] == 0x08 && frame@[13] == 0x00 && frame@[23]
            == 17 && frame@.len() >= 14 + frame@[14] % 16 * 4 + 8 + (u->0).0@.len(),
        t is None || u is None,
{
}

// ---------------------------------------------------------------------------
// Frames on port 18022
// ---------------------------------------------------------------------------

/// A request on the wire: the head with its length, and the text `req=<number>&query=<body>`,
/// where `*` may stand for the second `=`.
pub open spec fn wire_text(req: i64, star: bool, body: Seq<u8>) -> Seq<u8> {
    seq![0x72u8, 0x65u8, 0x71u8, 0x3du8] + encode_utf8(text::dec_int(req as int)) + seq![
        0x26u8,
        0x71u8,
        0x75u8,
        0x65u8,
        0x72u8,
        0x79u8,
        if star {
            0x2au8
        } else {
            0x3du8
        },
    ] + body
}

pub open spec fn is_wire_frame(p: Seq<u8>, t: Seq<u8>) -> bool {
    &&& p.len() >= 6 + t.len()
    &&& p[0] == 0x07
    &&& p[1] == 0xb8
    &&& p[2] + p[3] * 256 == t.len()
    &&& p.subrange(6, (6 + t.len()) as int) == t
}

proof fn lemma_number_bytes(req: i64)
    ensures
        ({
            let t = text::dec_int(req as int);
            let e = encode_utf8(t);
            &&& e.len() == t.len()
            &&& forall|i: int| 0 <= i < t.len() ==> #[trigger] e[i] == t[i] as u8 && e[i] != 0x26
                && e[i] as char == t[i]
            &&& text::int_value(t) == Some(req as int)
        }),
{
    let t = text::dec_int(req as int);
    let m = if req < 0 {
        (-req) as nat
    } else {
        req as nat
    };
    text::lemma_dec_reads_back(m);
    let d = text::dec(m);
    assert forall|i: int| 0 <= i < t.len() implies '\0' <= #[trigger] t[i] <= '\u{7f}' && t[i]
        != '&' by {
        if req < 0 {
            if i > 0 {
                assert(t[i] == d[i - 1]);
                assert(text::is_digit(d[i - 1]));
            }
        } else {
            assert(text::is_digit(d[i]));
        }
    }
    is_ascii_chars_encode_utf8(t);
    let e = encode_utf8(t);
    assert forall|i: int| 0 <= i < t.len() implies #[trigger] e[i] == t[i] as u8 && e[i] != 0x26
        && e[i] as char == t[i] by {
        lemma_ascii_byte(t[i]);
    }
    assert(text::is_digit(d[0]));
    if req < 0 {
        assert(t.drop_first() =~= d);
    }
}

proof fn lemma_ascii_byte(c: char)
    requires
        c as u32 <= 0x7f,
        c != '&',
    ensures
        (c as u8) as char == c,
        c as u8 != 0x26,
{
}

proof fn lemma_query_found(b: Seq<u8>, i: int, k: int)
    requires
        0 <= i <= k < b.len(),
        wire18022::query_stands(b, k),
        forall|j: int| i <= j < k ==> #[trigger] b[j] != 0x26,
    ensures
        wire18022::query_at(b, i) == Some(k),
    decreases k - i,
{
    if i < k {
        assert(b[i] != 0x26);
        if wire18022::query_stands(b, i) {
            assert(b.subrange(i, i + 6)[0] == b[i]);
            assert(seq![0x26u8, 0x71, 0x75, 0x65, 0x72, 0x79][0] == 0x26);
        }
        lemma_query_found(b, i + 1, k);
    }
}

pub proof fn lemma_wire(p: Seq<u8>, req: i64, star: bool, body: Seq<u8>)
    requires
        is_wire_frame(p, wire_text(req, star, body)),
    ensures
        wire18022::frame_parts(p) == Some((req, body)),
{
    let t = wire_text(req, star, body);
    let d = text::dec_int(req as int);
    let e = encode_utf8(d);
    lemma_number_bytes(req);
    let k = 4 + e.len() as int;
    assert(p.subrange(6, 6 + p[2] + p[3] * 256) == t);
    assert(t.take(4) =~= seq![0x72u8, 0x65, 0x71, 0x3d]);
    assert(t.subrange(k, k + 6) =~= seq![0x26u8, 0x71, 0x75, 0x65, 0x72, 0x79]);
    assert(wire18022::query_stands(t, k));
    assert forall|j: int| 4 <= j < k implies #[trigger] t[j] != 0x26 by {
        assert(t[j] == e[j - 4]);
    }
    lemma_query_found(t, 4, k);
    let n = wire18022::byte_chars(t.subrange(4, k));
    assert(n =~= d) by {
        assert forall|j: int| 0 <= j < n.len() implies n[j] == d[j] by {
            assert(t[j + 4] == e[j]);
            assert(e[j] as char == d[j]);
        }
    }
    assert(t.skip(k + 7) =~= body);
}

/// From a frame the number and the body of the request are read, whatever stands in its two
/// reserved bytes and whatever follows it.
pub proof fn law_request_is_read(
    p: &[u8],
    req: i64,
    star: bool,
    body: Seq<u8>,
    r: Option<(i64, Vec<u8>)>,
    s: Option<(i64, Vec<u8>)>,
)
    requires
        is_wire_frame(p@, wire_text(req, star, body)),
        call_ensures(parse_response_frame, (p,), r),
        call_ensures(listen18022::parse_frame, (p,), s),
    ensures
        r matches Some((n, b)) && n == req && b@ == body,
        s matches Some((n, b)) && n == req && b@ == body,
{
    lemma_wire(p@, req, star, body);
}

/// What does not begin with the two magic bytes, is shorter than its head says, or does not begin
/// with `req=` is no frame.
pub proof fn law_other_bytes_are_no_request(p: &[u8], r: Option<(i64, Vec<u8>)>)
    requires
        call_ensures(parse_response_frame, (p,), r),
    ensures
        r is Some ==> p@.len() >= 10 && p@[0] == 0x07 && p@[1] == 0xb8 && p@.len() >= 6 + p@[2]
            + p@[3] * 256 && p@[6] == 0x72 && p@[7] == 0x65 && p@[8] == 0x71 && p@[9] == 0x3d,
{
    if r is Some {
        let t = p@.subrange(6, 6 + p@[2] + p@[3] * 256);
        let h = t.take(4);
        assert(h[0] == p@[6] && h[1] == p@[7] && h[2] == p@[8] && h[3] == p@[9]);
        assert(seq![0x72u8, 0x65, 0x71, 0x3d][0] == 0x72);
        assert(seq![0x72u8, 0x65, 0x71, 0x3d][1] == 0x65);
        assert(seq![0x72u8, 0x65, 0x71, 0x3d][2] == 0x71);
        assert(seq![0x72u8, 0x65, 0x71, 0x3d][3] == 0x3d);
    }
}

/// Frames from different addresses, or from different ports of one address, are not taken for
/// copies of each other, even with the same payload.
pub proof fn law_senders_are_told_apart(
    a: [u8; 4],
    b: [u8; 4],
    pa: u16,
    pb: u16,
    payload: &[u8],
    ka: u64,
    kb: u64,
    la: u64,
    lb: u64,
)
    requires
        call_ensures(listen18022::dedup_key, (a, pa, payload), ka),
        call_ensures(listen18022::dedup_key, (b, pb, payload), kb),
        call_ensures(listen6672::dedup_key, (a, pa, payload), la),
        call_ensures(listen6672::dedup_key, (b, pb, payload), lb),
        a@ != b@ || pa != pb,
    ensures
        ka != kb,
        la != lb,
{
    lemma_keys_differ(dedup::frame_key(a@, pa, payload@, 64), dedup::frame_key(b@, pb, payload@, 64), a@, b@, pa, pb, payload@, 64);
    lemma_keys_differ(dedup::frame_key(a@, pa, payload@, 21), dedup::frame_key(b@, pb, payload@, 21), a@, b@, pa, pb, payload@, 21);
}

proof fn lemma_keys_differ(
    ka: u64,
    kb: u64,
    a: Seq<u8>,
    b: Seq<u8>,
    pa: u16,
    pb: u16,
    p: Seq<u8>,
    limit: int,
)
    requires
        a.len() == 4,
        b.len() == 4,
        ka == dedup::frame_key(a, pa, p, limit),
        kb == dedup::frame_key(b, pb, p, limit),
        a != b || pa != pb,
    ensures
        ka != kb,
{
    let head = if p.len() <= limit {
        p
    } else {
        p.take(limit)
    };
    let h = dedup::fnv(head);
    let x = dedup::ip_number(a) as u64;
    let y = dedup::ip_number(b) as u64;
    assert(x < 0x1_0000_0000 && y < 0x1_0000_0000);
    if a != b {
        assert(x != y) by {
            if x == y {
                assert(a[0] == b[0] && a[1] == b[1] && a[2] == b[2] && a[3] == b[3]);
                assert(a =~= b);
            }
        }
    }
    let (qa, qb) = (pa as u64, pb as u64);
    assert(h ^ x ^ (qa << 32u64) != h ^ y ^ (qb << 32u64)) by (bit_vector)
        requires
            x < 0x1_0000_0000,
            y < 0x1_0000_0000,
            qa < 0x1_0000,
            qb < 0x1_0000,
            x != y || qa != qb,
    ;
}

// ---------------------------------------------------------------------------
// Directions and log lines
// ---------------------------------------------------------------------------

/// A frame from a station to the indoor station, whose address is none of the stations', goes from
/// outdoors to indoors, and one the other way from indoors to outdoors; likewise to and from the
/// daemon. The ends of a direction are never mixed up.
pub proof fn law_directions(
    src: [u8; 4],
    dst: [u8; 4],
    daemon: Option<[u8; 4]>,
    indoor: Option<[u8; 4]>,
    outdoor: &[[u8; 4]],
    d: Direction,
)
    requires
        call_ensures(infer_direction, (src, dst, daemon, indoor, outdoor), d),
    ensures
        ({
            let from_out = exists|i: int| 0 <= i < outdoor@.len() && (#[trigger] outdoor@[i])@ == src@;
            let to_out = exists|i: int| 0 <= i < outdoor@.len() && (#[trigger] outdoor@[i])@ == dst@;
            let from_in = indoor matches Some(a) && a@ == src@;
            let to_in = indoor matches Some(a) && a@ == dst@;
            let from_me = daemon matches Some(a) && a@ == src@;
            let to_me = daemon matches Some(a) && a@ == dst@;
            &&& from_out && to_in ==> d == Direction::OutdoorToIndoor
            &&& from_in && to_out && !(from_out && to_in) ==> d == Direction::IndoorToOutdoor
            &&& from_me && to_out && !from_in && !(from_out && to_in) ==> d
                == Direction::DaemonToOutdoor
            &&& from_me && to_in && !from_out && !to_out ==> d == Direction::DaemonToIndoor
            &&& from_out && to_me && !to_in && !to_out && !from_in ==> d
                == Direction::OutdoorToDaemon || from_me
            &&& from_in && to_me && !to_out && !from_out ==> d == Direction::IndoorToDaemon || to_in
            &&& d == Direction::OutdoorToIndoor ==> from_out && to_in
            &&& d == Direction::IndoorToOutdoor ==> from_in && to_out
            &&& d == Direction::DaemonToOutdoor ==> from_me && to_out
            &&& d == Direction::DaemonToIndoor ==> from_me && to_in
            &&& d == Direction::OutdoorToDaemon ==> from_out && to_me
            &&& d == Direction::IndoorToDaemon ==> from_in && to_me
            &&& d == Direction::Unknown ==> !(from_out && (to_in || to_me)) && !(from_in && (to_out
                || to_me)) && !(from_me && (to_out || to_in))
        }),
{
}

/// What a line of the log says of the two ends.
pub open spec fn arrow(d: Direction) -> Seq<char> {
    match d {
        Direction::OutdoorToIndoor => "outdoor→indoor"@,
        Direction::IndoorToOutdoor => "indoor→outdoor"@,
        Direction::DaemonToOutdoor => "daemon→outdoor"@,
        Direction::DaemonToIndoor => "daemon→indoor"@,
        Direction::OutdoorToDaemon => "outdoor→daemon"@,
        Direction::IndoorToDaemon => "indoor→daemon"@,
        Direction::Unknown => "unknown"@,
    }
}

/// The line for a frame tells its number, its direction and both addresses, the sender's first;
/// what follows tells the meaning of the number, or the kind of a request 518.
#[verifier::rlimit(40)]
pub proof fn law_frame_lines(
    req: i64,
    src: [u8; 4],
    dst: [u8; 4],
    body: &[u8],
    d: Direction,
    out: String,
)
    requires
        call_ensures(format_log, (req, src, dst, body, d), out),
    ensures
        ({
            let start = "listen18022: detected req="@ + text::dec_int(req as int) + " "@ + arrow(d)
                + " "@ + forms::dotted(src@) + " → "@ + forms::dotted(dst@);
            &&& req == 704 ==> out@ == start + " (invite-query)"@
            &&& req == 705 ==> out@ == start + " (invite-ack)"@
            &&& req == 708 ==> out@ == start + " (bye)"@
            &&& req == 709 ==> out@ == start + " (bye-ack)"@
            &&& req == 710 ==> out@ == start + " (unlock-A)"@
            &&& req == 711 || req == 519 ==> out@ == start + " (ack-OK)"@
            &&& req == 564 || req == 565 || req == 840 || req == 841 || req == 888 || req == 889
                ==> out@ == start + " (ring-late-state)"@
            &&& req == 518 && body@.len() > 0 && body@[0] == 0x1b ==> out@ == start
                + " byte0=0x1b (state-notify)"@
            &&& req == 518 && body@.len() > 0 && body@[0] == 0x22 ==> out@ == start
                + " byte0=0x22 (unlock-B-standard)"@
            &&& req == 518 && body@.len() > 0 && body@[0] == 0xed ==> out@ == start
                + " byte0=0xed (appoint-variant)"@
            &&& req == 518 && body@.len() == 0 || req == 706 || req == 707 || req < 518 || req > 889
                ==> out@ == start
        }),
{
    forms::lemma_dotted(src@);
    forms::lemma_dotted(dst@);
    let start = "listen18022: detected req="@ + text::dec_int(req as int) + " "@ + arrow(d) + " "@
        + forms::dotted(src@) + " → "@ + forms::dotted(dst@);
    lemma_note_texts();
    lemma_around(start, listen18022::note_of(req as int));
    if req == 518 && body@.len() > 0 {
        lemma_variant_lines(start, body@[0], out@);
    }
}

proof fn lemma_around(start: Seq<char>, note: Seq<char>)
    ensures
        start + " ("@ + note + ")"@ == start + (" ("@ + note + ")"@),
{
    assert(start + " ("@ + note + ")"@ =~= start + (" ("@ + note + ")"@));
}

proof fn lemma_note_texts()
    ensures
        " ("@ + "invite-query"@ + ")"@ == " (invite-query)"@ && "invite-query"@.len() > 0,
        " ("@ + "invite-ack"@ + ")"@ == " (invite-ack)"@ && "invite-ack"@.len() > 0,
        " ("@ + "bye"@ + ")"@ == " (bye)"@ && "bye"@.len() > 0,
        " ("@ + "bye-ack"@ + ")"@ == " (bye-ack)"@ && "bye-ack"@.len() > 0,
        " ("@ + "unlock-A"@ + ")"@ == " (unlock-A)"@ && "unlock-A"@.len() > 0,
        " ("@ + "ack-OK"@ + ")"@ == " (ack-OK)"@ && "ack-OK"@.len() > 0,
        " ("@ + "ring-late-state"@ + ")"@ == " (ring-late-state)"@ && "ring-late-state"@.len() > 0,
        ""@.len() == 0,
{
    reveal_strlit("");
    assert(" ("@ + "invite-query"@ + ")"@ =~= " (invite-query)"@ && "invite-query"@.len() > 0) by {
        reveal_strlit(" (");
        reveal_strlit(")");
        reveal_strlit("invite-query");
        reveal_strlit(" (invite-query)");
    }
    assert(" ("@ + "invite-ack"@ + ")"@ =~= " (invite-ack)"@ && "invite-ack"@.len() > 0) by {
        reveal_strlit(" (");
        reveal_strlit(")");
        reveal_strlit("invite-ack");
        reveal_strlit(" (invite-ack)");
    }
    assert(" ("@ + "bye"@ + ")"@ =~= " (bye)"@ && "bye"@.len() > 0) by {
        reveal_strlit(" (");
        reveal_strlit(")");
        reveal_strlit("bye");
        reveal_strlit(" (bye)");
    }
    assert(" ("@ + "bye-ack"@ + ")"@ =~= " (bye-ack)"@ && "bye-ack"@.len() > 0) by {
        reveal_strlit(" (");
        reveal_strlit(")");
        reveal_strlit("bye-ack");
        reveal_strlit(" (bye-ack)");
    }
    assert(" ("@ + "unlock-A"@ + ")"@ =~= " (unlock-A)"@ && "unlock-A"@.len() > 0) by {
        reveal_strlit(" (");
        reveal_strlit(")");
        reveal_strlit("unlock-A");
        reveal_strlit(" (unlock-A)");
    }
    assert(" ("@ + "ack-OK"@ + ")"@ =~= " (ack-OK)"@ && "ack-OK"@.len() > 0) by {
        reveal_strlit(" (");
        reveal_strlit(")");
        reveal_strlit("ack-OK");
        reveal_strlit(" (ack-OK)");
    }
    assert(" ("@ + "ring-late-state"@ + ")"@ =~= " (ring-late-state)"@ && "ring-late-state"@.len() > 0) by {
        reveal_strlit(" (");
        reveal_strlit(")");
        reveal_strlit("ring-late-state");
        reveal_strlit(" (ring-late-state)");
    }
}

proof fn lemma_variant_lines(start: Seq<char>, b: u8, out: Seq<char>)
    requires
        out == start + " byte0=0x"@ + text::byte_hex(b) + " ("@ + listen18022::variant_of(b)
            + ")"@,
    ensures
        b == 0x1b ==> out == start + " byte0=0x1b (state-notify)"@,
        b == 0x22 ==> out == start + " byte0=0x22 (unlock-B-standard)"@,
        b == 0xed ==> out == start + " byte0=0xed (appoint-variant)"@,
{
    let h = text::byte_hex(b);
    let v = listen18022::variant_of(b);
    assert(out =~= start + (" byte0=0x"@ + h + " ("@ + v + ")"@));
    if b == 0x1b {
        assert(" byte0=0x"@ + h + " ("@ + v + ")"@ =~= " byte0=0x1b (state-notify)"@) by {
            reveal_strlit(" byte0=0x");
            reveal_strlit(" (");
            reveal_strlit(")");
            reveal_strlit("state-notify");
            reveal_strlit(" byte0=0x1b (state-notify)");
            assert(h =~= seq!['1', 'b']);
        }
    }
    if b == 0x22 {
        assert(" byte0=0x"@ + h + " ("@ + v + ")"@ =~= " byte0=0x22 (unlock-B-standard)"@) by {
            reveal_strlit(" byte0=0x");
            reveal_strlit(" (");
            reveal_strlit(")");
            reveal_strlit("unlock-B-standard");
            reveal_strlit(" byte0=0x22 (unlock-B-standard)");
            assert(h =~= seq!['2', '2']);
        }
    }
    if b == 0xed {
        assert(" byte0=0x"@ + h + " ("@ + v + ")"@ =~= " byte0=0xed (appoint-variant)"@) by {
            reveal_strlit(" byte0=0x");
            reveal_strlit(" (");
            reveal_strlit(")");
            reveal_strlit("appoint-variant");
            reveal_strlit(" byte0=0xed (appoint-variant)");
            assert(h =~= seq!['e', 'd']);
        }
    }
}

/// Every frame is logged. An invitation from a configured station is reported as a ring from it,
/// for the configured indoor station or, where it went to another address, for the one of the same
/// number there; one from elsewhere is only logged, and nothing else is a ring.
#[verifier::rlimit(40)]
pub proof fn law_rings_are_reported(w: RingWatch, d: DetectedFrame, r: FrameSeen)
    requires
        call_ensures(RingWatch::on_detect, (&w, &d), r),
    ensures
        ({
            let src = forms::dotted(d.src_ip@);
            let known = w.outdoor_by_ip@.dom().contains(src);
            &&& r.push is Some <==> d.req == 704 && known
            &&& r.dropped is Some <==> d.req == 704 && !known
            &&& r.dropped matches Some(l) ==> l@ == "ring: src="@ + src
                + " not in cfg.Stations (dropped, neighbor or unconfigured station)"@
            &&& r.push matches Some(p) ==> {
                &&& p.event@ == "ring"@
                &&& p.fields@.len() == 3
                &&& p.fields@[0].0@ == "from"@ && p.fields@[0].1@ == w.outdoor_by_ip@[src]@
                &&& p.fields@[1].0@ == "to"@
                &&& p.fields@[2].0@ == "result"@ && p.fields@[2].1@ == "0"@
                &&& (w.indoor_ip matches Some(a) && a@ == d.dst_ip@) || w.indoor_ip is None
                    || w.indoor_name@.len() == 0 ==> p.fields@[1].1@ == w.sip@
                &&& (w.indoor_ip matches Some(a) && a@ != d.dst_ip@) && w.indoor_name@.len() > 0
                    ==> p.fields@[1].1@ == w.indoor_name@ + "@"@ + forms::dotted(d.dst_ip@)
                    + ":18022"@
            }
        }),
{
    forms::lemma_dotted(d.src_ip@);
    forms::lemma_dotted(d.dst_ip@);
    if r.push is Some {
        let p = r.push->0;
        assert(p@.fields.len() == 3);
        assert(p@.fields[0] == (p.fields@[0].0@, p.fields@[0].1@));
        assert(p@.fields[1] == (p.fields@[1].0@, p.fields@[1].1@));
        assert(p@.fields[2] == (p.fields@[2].0@, p.fields@[2].1@));
    }
}

// ---------------------------------------------------------------------------
// Frames on port 6672
// ---------------------------------------------------------------------------

/// A frame of 21 bytes with 00 40 at its place is read field by field; other bytes are refused
/// for their number or for these two.
pub proof fn law_key_frame_is_read(p: &[u8], r: Result<Frame, ParseError>)
    requires
        call_ensures(listen6672::parse_frame, (p,), r),
    ensures
        p@.len() != 21 ==> r == Err::<Frame, _>(ParseError::FrameSize(p@.len() as usize)),
        p@.len() == 21 && (p@[17] != 0 || p@[18] != 0x40) ==> r == Err::<Frame, _>(
            ParseError::FrameMagic(p@[17], p@[18]),
        ),
        p@.len() == 21 && p@[17] == 0 && p@[18] == 0x40 ==> (r matches Ok(f) && {
            &&& f.flag == p@[0]
            &&& f.target_bcd@[0] == p@[1] && f.target_bcd@[1] == p@[2] && f.target_bcd@[2] == p@[3]
                && f.target_bcd@[3] == p@[4]
            &&& f.self_or_ip@[0] == p@[5] && f.self_or_ip@[1] == p@[6] && f.self_or_ip@[2] == p@[7]
                && f.self_or_ip@[3] == p@[8]
            &&& f.reserved@[0] == p@[9] && f.reserved@[3] == p@[12]
            &&& f.event_flag == p@[13] + 256 * (p@[14] + 256 * (p@[15] + 256 * p@[16]))
            &&& f.magic@[0] == 0 && f.magic@[1] == 0x40
            &&& f.subtype == p@[19]
            &&& f.event_id == p@[20]
            &&& f.raw@ == p@
        }),
{
    if p@.len() == 21 && p@[17] == 0 && p@[18] == 0x40 {
        let s = p@;
        assert(s.subrange(1, 5)[0] == s[1] && s.subrange(1, 5)[1] == s[2] && s.subrange(1, 5)[2]
            == s[3] && s.subrange(1, 5)[3] == s[4]);
        assert(s.subrange(5, 9)[0] == s[5] && s.subrange(5, 9)[1] == s[6] && s.subrange(5, 9)[2]
            == s[7] && s.subrange(5, 9)[3] == s[8]);
        assert(s.subrange(9, 13)[0] == s[9] && s.subrange(9, 13)[3] == s[12]);
        assert(s.subrange(13, 17)[0] == s[13] && s.subrange(13, 17)[1] == s[14] && s.subrange(
            13,
            17,
        )[2] == s[15] && s.subrange(13, 17)[3] == s[16]);
        assert(s.subrange(17, 19)[0] == s[17] && s.subrange(17, 19)[1] == s[18]);
    }
}

/// Which frames are rings, keys, queries and answers.
pub proof fn law_kinds_of_frames(f: Frame, k: EventKind)
    requires
        call_ensures(classify, (&f,), k),
    ensures
        k is NumberResponse <==> f.flag == 1,
        k is NumberQuery <==> f.flag == 0 && f.event_flag == 0,
        k is Ring <==> f.flag == 0 && f.event_flag == 1 && (f.subtype == 0x8c || f.subtype == 0x94
            || f.subtype == 0x95),
        k is ElevatorKey <==> f.flag == 0 && f.event_flag == 1 && f.subtype == 0x90,
        k is KeepAlive <==> f.flag == 0 && f.event_flag == 1 && f.subtype == 0x00,
{
}

/// A payload that is a frame is handed out exactly where its kind is asked for, with its fields as
/// they came; a ring and an elevator key are logged besides, a ring with its sender.
pub proof fn law_key_frames_are_handed_out<C>(
    l: listen6672::Listener<C>,
    ip: [u8; 4],
    p: &[u8],
    d: Dispatched,
    f: Frame,
    k: EventKind,
)
    requires
        call_ensures(listen6672::Listener::<C>::dispatch, (&l, ip, p), d),
        call_ensures(listen6672::parse_frame, (p,), Ok::<Frame, ParseError>(f)),
        call_ensures(classify, (&f,), k),
    ensures
        d.event is Some <==> (k is Ring && l.callbacks.on_ring || k is ElevatorKey
            && l.callbacks.on_elevator_key || k is NumberQuery && l.callbacks.on_number_query
            || k is NumberResponse && l.callbacks.on_number_response),
        d.event matches Some((e, g)) ==> e == k && g.raw@ == p@ && g.subtype == p@[19],
        k is Ring ==> (d.log matches Some(t) && t@ == "Capture: Ring captured from "@
            + forms::dotted(ip@)),
        k is ElevatorKey ==> (d.log matches Some(t) && t@
            == "indoor station elevator key, ignored"@),
        k is KeepAlive || k is NumberQuery || k is NumberResponse ==> d.log is None,
        k is Unknown ==> d.log is Some,
{
    forms::lemma_dotted(ip@);
}

/// A payload that is no frame is dropped and logged.
pub proof fn law_other_payloads_are_dropped<C>(
    l: listen6672::Listener<C>,
    ip: [u8; 4],
    p: &[u8],
    d: Dispatched,
)
    requires
        call_ensures(listen6672::Listener::<C>::dispatch, (&l, ip, p), d),
        p@.len() != 21 || p@[17] != 0 || p@[18] != 0x40,
    ensures
        d.event is None,
        p@.len() != 21 ==> (d.log matches Some(t) && t@
            == "listen6672: drop non-21B payload (len="@ + text::dec(p@.len()) + ")"@),
        p@.len() == 21 ==> (d.log matches Some(t) && t@
            == "listen6672: parse error: listen6672: byte 17-18 not 00 40: got "@ + text::byte_hex(
            p@[17],
        ) + " "@ + text::byte_hex(p@[18])),
{
    if p@.len() == 21 {
        reveal_strlit("listen6672: parse error: ");
        reveal_strlit("listen6672: byte 17-18 not 00 40: got ");
        reveal_strlit("listen6672: parse error: listen6672: byte 17-18 not 00 40: got ");
        assert("listen6672: parse error: "@ + ("listen6672: byte 17-18 not 00 40: got "@
            + text::byte_hex(p@[17]) + " "@ + text::byte_hex(p@[18]))
            =~= "listen6672: parse error: listen6672: byte 17-18 not 00 40: got "@
            + text::byte_hex(p@[17]) + " "@ + text::byte_hex(p@[18]));
    }
}

/// The answer to a number query names the number that was asked for and the own address, and
/// repeats what else the query says.
pub proof fn law_number_answers(q: Frame, ip: [u8; 4], out: [u8; 21])
    requires
        call_ensures(build_number_query_response, (&q, ip), out),
    ensures
        out@[0] == 1,
        out@[1] == q.target_bcd@[0] && out@[2] == q.target_bcd@[1] && out@[3] == q.target_bcd@[2]
            && out@[4] == q.target_bcd@[3],
        out@[5] == ip@[0] && out@[6] == ip@[1] && out@[7] == ip@[2] && out@[8] == ip@[3],
        out@[9] == 0 && out@[10] == 0 && out@[11] == 0 && out@[12] == 0,
        q.event_flag == out@[13] + 256 * (out@[14] + 256 * (out@[15] + 256 * out@[16])),
        out@[17] == 0 && out@[18] == 0x40,
        out@[19] == q.subtype && out@[20] == q.event_id,
{
    let e = q.event_flag;
    let b = listen6672::le_bytes(e);
    assert(b[0] == e % 0x100 && b[1] == e / 0x100 % 0x100);
    assert(b[2] == e / 0x1_0000 % 0x100 && b[3] == e / 0x100_0000);
    assert(out@[13] == b[0] && out@[14] == b[1] && out@[15] == b[2] && out@[16] == b[3]);
    assert(e / 0x100 / 0x100 == e / 0x1_0000);
    assert(e / 0x1_0000 / 0x100 == e / 0x100_0000);
}

/// A query is answered where it asks for the own number and the own address is known, and only
/// there.
pub proof fn law_own_number_is_answered(a: NumberAnswer, q: Frame, r: QueryReply, t: String)
    requires
        call_ensures(NumberAnswer::answer, (&a, &q), r),
        call_ensures(crate::codec::decode_bcd, (q.target_bcd,), t),
    ensures
        r is NotMine <==> t@ != a.my_num@,
        r is Answer <==> t@ == a.my_num@ && a.our_ip is Some,
        r is NoAddress <==> t@ == a.my_num@ && a.our_ip is None,
        r matches QueryReply::Answer(b) ==> b@[0] == 1 && b@[5] == (a.our_ip->0)@[0] && b@[8]
            == (a.our_ip->0)@[3] && b@[1] == q.target_bcd@[0] && b@[4] == q.target_bcd@[3],
{
}

// ---------------------------------------------------------------------------
// Subscribers
// ---------------------------------------------------------------------------

/// A subscriber that was not cancelled is told of a frame that its filter picks, up to eight at a
/// time, and of no other; frames keep their order.
pub proof fn law_subscribers_are_told<F: FrameFilter>(
    subs: Seq<listen18022::SubView<F>>,
    f: DetectedView,
    i: int,
)
    requires
        0 <= i < subs.len(),
    ensures
        ({
            let s = subs[i];
            let t = listen18022::all_told(subs, f)[i];
            let wanted = !s.closed && s.waiting.len() < 8 && (s.filter matches Some(g)
                ==> g.picks(f));
            &&& listen18022::all_told(subs, f).len() == subs.len()
            &&& t.id == s.id && t.filter == s.filter && t.closed == s.closed
            &&& wanted ==> t.waiting == s.waiting.push(f)
            &&& !wanted ==> t.waiting == s.waiting
        }),
{
}

/// What waits is received in the order in which it came, by the subscriber it waits for, and then
/// no more.
pub proof fn law_frames_are_received_in_order<C, F>(
    s: Subscription,
    l: &mut listen18022::Listener<C, F>,
    i: int,
    r: Received,
)
    requires
        old(l).wf(),
        call_ensures(Subscription::try_recv::<C, F>, (&s, l), r),
        0 <= i < old(l)@.len(),
        old(l)@[i].id == s.id,
    ensures
        old(l)@[i].waiting.len() > 0 ==> (r matches Received::Frame(f) && f@
            == old(l)@[i].waiting.first() && final(l)@[i].waiting
            == old(l)@[i].waiting.drop_first()),
        old(l)@[i].waiting.len() == 0 ==> final(l)@ == old(l)@ && (r is Disconnected
            <==> old(l)@[i].closed) && (r is Empty <==> !old(l)@[i].closed),
        final(l)@.len() == old(l)@.len(),
        forall|j: int| 0 <= j < old(l)@.len() && j != i ==> final(l)@[j] == #[trigger] old(l)@[j],
{
    listen18022::lemma_place(old(l)@, s.id);
    let k = listen18022::place_of(old(l)@, s.id)->0;
    assert(k == i) by {
        if k < i {
            assert(old(l)@[k].id != old(l)@[i].id);
        } else if i < k {
            assert(old(l)@[i].id != old(l)@[k].id);
        }
    }
    if old(l)@[i].waiting.len() > 0 {
        assert(old(l)@[i].waiting.skip(1) =~= old(l)@[i].waiting.drop_first());
    }
}

/// A frame that is recognised and no copy reaches the subscribers with the ends that it had.
pub proof fn law_requests_are_detected(
    src: [u8; 4],
    dst: [u8; 4],
    sp: u16,
    dp: u16,
    p: Seq<u8>,
    req: i64,
    star: bool,
    body: Seq<u8>,
)
    requires
        is_wire_frame(p, wire_text(req, star, body)),
    ensures
        listen18022::detected(src, dst, sp, dp, p) matches Some(f) && f.req == req && f.body == body
            && f.src_ip == src && f.dst_ip == dst && f.src_port == sp && f.dst_port == dp,
{
    lemma_wire(p, req, star, body);
}

} // verus!
