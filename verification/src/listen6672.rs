//! Frames on UDP port 6672: rings, elevator keys, keep-alives and number queries.

use vstd::prelude::*;
use vstd::slice::{slice_subrange, slice_to_vec};
use vstd::string::*;

use crate::codec;
use crate::codec::push_ip;
use crate::dedup;
use crate::dedup::key_of;
use crate::ffi::FfiError;
use crate::text;
use crate::text::{push_byte_hex, push_dec};

pub use crate::dedup::{
    fnv1a_64, Clock, Dedup, MonotonicClock, DEDUP_CAPACITY, DEDUP_WINDOW_MS,
};

verus! {

/// The length of a frame.
pub const FRAME_SIZE: usize = 21;

/// The port that the frames come to.
pub const DEFAULT_UDP_PORT: u16 = 6672;

// ---------------------------------------------------------------------------
// Frames
// ---------------------------------------------------------------------------

/// A frame.
#[derive(Debug, Clone, Copy, PartialEq, Eq)]
pub struct Frame {
    /// 0 for a query or event, 1 for a response.
    pub flag: u8,
    /// The number that is called, packed.
    pub target_bcd: [u8; 4],
    /// The sender's number or address.
    pub self_or_ip: [u8; 4],
    pub reserved: [u8; 4],
    /// 0 for a number query, 1 for an event.
    pub event_flag: u32,
    /// Always 00 40.
    pub magic: [u8; 2],
    /// The kind of event.
    pub subtype: u8,
    pub event_id: u8,
    /// The frame as it came.
    pub raw: [u8; 21],
}

/// Why bytes are no frame.
#[derive(Debug, Clone, Copy, PartialEq, Eq)]
pub enum ParseError {
    /// There are not `FRAME_SIZE` bytes.
    FrameSize(usize),
    /// Bytes 17 and 18 are not 00 40.
    FrameMagic(u8, u8),
}

impl ParseError {
    /// The text shown for the error.
    pub open spec fn text(&self) -> Seq<char> {
        match self {
            ParseError::FrameSize(n) => "listen6672: payload not 21 bytes: got "@ + text::dec(
                *n as nat,
            ) + " bytes"@,
            ParseError::FrameMagic(a, b) => "listen6672: byte 17-18 not 00 40: got "@
                + text::byte_hex(*a) + " "@ + text::byte_hex(*b),
        }
    }

    /// The text shown for the error.
    pub fn message(&self) -> (out: String)
        ensures
            out@ == self.text(),
    {
        match self {
            ParseError::FrameSize(n) => {
                let mut out = "listen6672: payload not 21 bytes: got ".to_owned();
                push_dec(&mut out, *n as u64);
                out.append(" bytes");
                out
            },
            ParseError::FrameMagic(a, b) => {
                let mut out = "listen6672: byte 17-18 not 00 40: got ".to_owned();
                push_byte_hex(&mut out, *a);
                out.append(" ");
                push_byte_hex(&mut out, *b);
                out
            },
        }
    }
}

/// A number from four bytes, lowest first.
pub open spec fn le_number(b: Seq<u8>) -> int {
    b[0] + b[1] * 0x100 + b[2] * 0x1_0000 + b[3] * 0x100_0000
}

/// The four bytes of a number, lowest first.
pub open spec fn le_bytes(n: u32) -> Seq<u8> {
    seq![
        (n % 0x100) as u8,
        (n / 0x100 % 0x100) as u8,
        (n / 0x1_0000 % 0x100) as u8,
        (n / 0x100_0000) as u8,
    ]
}

impl Frame {
    /// Whether the fields are those of the 21 bytes `p`.
    pub open spec fn reads(&self, p: Seq<u8>) -> bool {
        &&& p.len() == FRAME_SIZE
        &&& self.flag == p[0]
        &&& self.target_bcd@ == p.subrange(1, 5)
        &&& self.self_or_ip@ == p.subrange(5, 9)
        &&& self.reserved@ == p.subrange(9, 13)
        &&& self.event_flag == le_number(p.subrange(13, 17))
        &&& self.magic@ == p.subrange(17, 19)
        &&& self.subtype == p[19]
        &&& self.event_id == p[20]
        &&& self.raw@ == p
    }
}

/// What is wrong with bytes that are no frame.
pub open spec fn frame_fault(p: Seq<u8>) -> Option<ParseError> {
    if p.len() != FRAME_SIZE {
        Some(ParseError::FrameSize(p.len() as usize))
    } else if p[17] != 0 || p[18] != 0x40 {
        Some(ParseError::FrameMagic(p[17], p[18]))
    } else {
        None
    }
}

/// Reads a frame.
pub fn parse_frame(payload: &[u8]) -> (r: Result<Frame, ParseError>)
    ensures
        match r {
            Ok(f) => frame_fault(payload@) is None && f.reads(payload@),
            Err(e) => frame_fault(payload@) == Some(e),
        },
{
    if payload.len() != FRAME_SIZE {
        return Err(ParseError::FrameSize(payload.len()));
    }
    if payload[17] != 0 || payload[18] != 0x40 {
        return Err(ParseError::FrameMagic(payload[17], payload[18]));
    }
    let mut raw: [u8; 21] = [0u8; 21];
    let mut i: usize = 0;
    while i < 21
        invariant
            i <= 21,
            payload@.len() == 21,
            raw@.len() == 21,
            forall|j: int| 0 <= j < i ==> #[trigger] raw@[j] == payload@[j],
        decreases 21 - i,
    {
        raw[i] = payload[i];
        i = i + 1;
    }
    let f = Frame {
        flag: payload[0],
        target_bcd: [payload[1], payload[2], payload[3], payload[4]],
        self_or_ip: [payload[5], payload[6], payload[7], payload[8]],
        reserved: [payload[9], payload[10], payload[11], payload[12]],
        event_flag: payload[13] as u32 + payload[14] as u32 * 0x100 + payload[15] as u32 * 0x1_0000
            + payload[16] as u32 * 0x100_0000,
        magic: [payload[17], payload[18]],
        subtype: payload[19],
        event_id: payload[20],
        raw,
    };
    assert(f.target_bcd@ =~= payload@.subrange(1, 5));
    assert(f.self_or_ip@ =~= payload@.subrange(5, 9));
    assert(f.reserved@ =~= payload@.subrange(9, 13));
    assert(f.magic@ =~= payload@.subrange(17, 19));
    assert(f.raw@ =~= payload@);
    Ok(f)
}

/// What a frame says.
#[derive(Debug, Clone, Copy, PartialEq, Eq, Structural)]
pub enum EventKind {
    Unknown,
    /// Somebody rings.
    Ring,
    /// The elevator key of an indoor station.
    ElevatorKey,
    KeepAlive,
    /// Somebody asks who has a number.
    NumberQuery,
    /// The answer to such a question.
    NumberResponse,
}

impl EventKind {
    /// The name of the kind.
    pub open spec fn name(&self) -> Seq<char> {
        match self {
            EventKind::Ring => "ring"@,
            EventKind::ElevatorKey => "elevator_key"@,
            EventKind::KeepAlive => "keep_alive"@,
            EventKind::NumberQuery => "number_query"@,
            EventKind::NumberResponse => "number_response"@,
            EventKind::Unknown => "unknown"@,
        }
    }

    /// The name of the kind.
    pub fn as_str(&self) -> (out: &'static str)
        ensures
            out@ == self.name(),
    {
        match self {
            EventKind::Ring => "ring",
            EventKind::ElevatorKey => "elevator_key",
            EventKind::KeepAlive => "keep_alive",
            EventKind::NumberQuery => "number_query",
            EventKind::NumberResponse => "number_response",
            EventKind::Unknown => "unknown",
        }
    }
}

/// The kind that the three deciding fields give.
pub open spec fn kind_of(flag: u8, event_flag: u32, subtype: u8) -> EventKind {
    if flag == 1 {
        EventKind::NumberResponse
    } else if flag != 0 {
        EventKind::Unknown
    } else if event_flag == 0 {
        EventKind::NumberQuery
    } else if event_flag != 1 {
        EventKind::Unknown
    } else if subtype == 0x8c || subtype == 0x94 || subtype == 0x95 {
        EventKind::Ring
    } else if subtype == 0x90 {
        EventKind::ElevatorKey
    } else if subtype == 0 {
        EventKind::KeepAlive
    } else {
        EventKind::Unknown
    }
}

/// Tells what a frame says.
pub fn classify(f: &Frame) -> (k: EventKind)
    ensures
        k == kind_of(f.flag, f.event_flag, f.subtype),
{
    match f.flag {
        1 => EventKind::NumberResponse,
        0 => match f.event_flag {
            0 => EventKind::NumberQuery,
            1 => match f.subtype {
                0x8c | 0x94 | 0x95 => EventKind::Ring,
                0x90 => EventKind::ElevatorKey,
                0 => EventKind::KeepAlive,
                _ => EventKind::Unknown,
            },
            _ => EventKind::Unknown,
        },
        _ => EventKind::Unknown,
    }
}

// ---------------------------------------------------------------------------
// Number queries
// ---------------------------------------------------------------------------

/// The answer to the query `f` from a station with the address `ip`.
pub open spec fn answer_bytes(f: Frame, ip: Seq<u8>) -> Seq<u8> {
    seq![1u8] + f.target_bcd@ + ip + seq![0u8, 0, 0, 0] + le_bytes(f.event_flag) + seq![
        0u8,
        0x40,
        f.subtype,
        f.event_id,
    ]
}

/// The answer to the query `req_frame`: the number has the address `our_ip`.
pub fn build_number_query_response(req_frame: &Frame, our_ip: [u8; 4]) -> (out: [u8; 21])
    ensures
        out@ == answer_bytes(*req_frame, our_ip@),
{
    let t = &req_frame.target_bcd;
    let e: u32 = req_frame.event_flag;
    let out: [u8; 21] = [
        0x01,
        t[0],
        t[1],
        t[2],
        t[3],
        our_ip[0],
        our_ip[1],
        our_ip[2],
        our_ip[3],
        0,
        0,
        0,
        0,
        (e % 0x100) as u8,
        (e / 0x100 % 0x100) as u8,
        (e / 0x1_0000 % 0x100) as u8,
        (e / 0x100_0000) as u8,
        0x00,
        0x40,
        req_frame.subtype,
        req_frame.event_id,
    ];
    assert(out@ =~= answer_bytes(*req_frame, our_ip@));
    out
}

/// An answer is a frame that reads back as a number response: it names the number that was asked
/// for and the address it belongs to, and carries the query's other fields.
pub proof fn law_answer_reads_back(query: Frame, ip: Seq<u8>, answer: Frame)
    requires
        ip.len() == 4,
        answer.reads(answer_bytes(query, ip)),
    ensures
        frame_fault(answer_bytes(query, ip)) is None,
        kind_of(answer.flag, answer.event_flag, answer.subtype) is NumberResponse,
        answer.target_bcd@ == query.target_bcd@,
        answer.self_or_ip@ == ip,
        answer.event_flag == query.event_flag,
        answer.subtype == query.subtype,
        answer.event_id == query.event_id,
{
    let p = answer_bytes(query, ip);
    assert(p[0] == 1 && p[17] == 0 && p[18] == 0x40);
    assert(p[19] == query.subtype && p[20] == query.event_id);
    assert(p.subrange(1, 5) =~= query.target_bcd@);
    assert(p.subrange(5, 9) =~= ip);
    assert(p.subrange(13, 17) =~= le_bytes(query.event_flag));
    lemma_le(query.event_flag);
}

/// The bytes of a number make up the number.
proof fn lemma_le(n: u32)
    ensures
        le_number(le_bytes(n)) == n,
{
    let b = le_bytes(n);
    assert(b[0] == n % 0x100);
    assert(b[1] == n / 0x100 % 0x100);
    assert(b[2] == n / 0x1_0000 % 0x100);
    assert(b[3] == n / 0x100_0000);
    assert(n / 0x100 / 0x100 == n / 0x1_0000);
    assert(n / 0x1_0000 / 0x100 == n / 0x100_0000);
}

// ---------------------------------------------------------------------------
// Payload of a packet
// ---------------------------------------------------------------------------

/// The payload, source address and source port of an Ethernet frame that carries UDP over IPv4.
pub open spec fn udp_parts(f: Seq<u8>) -> Option<(Seq<u8>, Seq<u8>, u16)> {
    let ihl = f[14] % 16 * 4;
    let udp = 14 + ihl;
    let len = f[udp + 4] * 256 + f[udp + 5];
    if f.len() < 42 || f[12] != 8 || f[13] != 0 || ihl < 20 || f.len() < udp + 8 || f[23] != 17
        || len < 8 || f.len() < udp + len {
        None
    } else {
        Some(
            (
                f.subrange(udp + 8, udp + len),
                f.subrange(26, 30),
                (f[udp] * 256 + f[udp + 1]) as u16,
            ),
        )
    }
}

/// The payload, source address and source port of an Ethernet frame that carries UDP over IPv4.
pub fn extract_udp_payload(frame: &[u8]) -> (r: Option<(Vec<u8>, [u8; 4], u16)>)
    ensures
        match r {
            Some((payload, ip, port)) => udp_parts(frame@) == Some((payload@, ip@, port)),
            None => udp_parts(frame@) is None,
        },
{
    if frame.len() < 42 {
        return None;
    }
    if frame[12] != 8 || frame[13] != 0 {
        return None;
    }
    let ihl: usize = (frame[14] % 16) as usize * 4;
    if ihl < 20 || frame.len() - 14 < ihl + 8 {
        return None;
    }
    if frame[23] != 17 {
        return None;
    }
    let udp: usize = 14 + ihl;
    let port: u16 = frame[udp] as u16 * 256 + frame[udp + 1] as u16;
    let len: usize = frame[udp + 4] as usize * 256 + frame[udp + 5] as usize;
    if len < 8 || len > frame.len() - udp {
        return None;
    }
    let payload = slice_to_vec(slice_subrange(frame, udp + 8, udp + len));
    let ip: [u8; 4] = [frame[26], frame[27], frame[28], frame[29]];
    assert(ip@ =~= frame@.subrange(26, 30));
    Some((payload, ip, port))
}

// ---------------------------------------------------------------------------
// Listener
// ---------------------------------------------------------------------------

/// The key under which a frame is remembered.
pub fn dedup_key(src_ip: [u8; 4], src_port: u16, payload: &[u8]) -> (k: u64)
    ensures
        k == dedup::frame_key(src_ip@, src_port, payload@, 21),
{
    key_of(src_ip, src_port, payload, FRAME_SIZE)
}

/// The events that are handed out; the others are only logged.
#[derive(Debug, Clone, Copy)]
pub struct Callbacks {
    pub on_ring: bool,
    pub on_elevator_key: bool,
    pub on_number_query: bool,
    pub on_number_response: bool,
}

impl Callbacks {
    /// Whether events of kind `k` are handed out.
    pub open spec fn wants(&self, k: EventKind) -> bool {
        match k {
            EventKind::Ring => self.on_ring,
            EventKind::ElevatorKey => self.on_elevator_key,
            EventKind::NumberQuery => self.on_number_query,
            EventKind::NumberResponse => self.on_number_response,
            EventKind::KeepAlive | EventKind::Unknown => false,
        }
    }
}

impl Default for Callbacks {
    fn default() -> (c: Self)
        ensures
            !c.on_ring && !c.on_elevator_key && !c.on_number_query && !c.on_number_response,
    {
        Callbacks {
            on_ring: false,
            on_elevator_key: false,
            on_number_query: false,
            on_number_response: false,
        }
    }
}

/// What a payload led to: a line for the log and an event, each where there is one.
#[derive(Debug)]
pub struct Dispatched {
    pub log: Option<String>,
    pub event: Option<(EventKind, Frame)>,
}

/// The line that a payload from `src_ip` puts into the log.
pub open spec fn log_text(src_ip: Seq<u8>, p: Seq<u8>) -> Option<Seq<char>> {
    if p.len() != FRAME_SIZE {
        Some("listen6672: drop non-21B payload (len="@ + text::dec(p.len()) + ")"@)
    } else if frame_fault(p) is Some {
        Some("listen6672: parse error: "@ + frame_fault(p)->0.text())
    } else {
        match kind_of(p[0], le_number(p.subrange(13, 17)) as u32, p[19]) {
            EventKind::Ring => Some("Capture: Ring captured from "@ + codec::ip_text(src_ip)),
            EventKind::ElevatorKey => Some("indoor station elevator key, ignored"@),
            EventKind::Unknown => Some(
                "listen6672: unknown frame subtype=0x"@ + text::byte_hex(p[19]),
            ),
            _ => None,
        }
    }
}

impl Dispatched {
    /// Nothing to log and nothing handed out.
    pub open spec fn nothing(&self) -> bool {
        self.log is None && self.event is None
    }

    /// What `p` from `src_ip` leads to, where `wanted` are handed out.
    pub open spec fn follows(&self, wanted: Callbacks, src_ip: Seq<u8>, p: Seq<u8>) -> bool {
        let kind = kind_of(p[0], le_number(p.subrange(13, 17)) as u32, p[19]);
        &&& match self.log {
            Some(l) => log_text(src_ip, p) == Some(l@),
            None => log_text(src_ip, p) is None,
        }
        &&& match self.event {
            Some((k, f)) => frame_fault(p) is None && wanted.wants(kind) && k == kind && f.reads(p),
            None => frame_fault(p) is Some || !wanted.wants(kind),
        }
    }
}

/// Why listening ended.
#[derive(Debug)]
pub enum ListenerError {
    /// There is no interface to listen on.
    NoSlaves,
    /// The platform has no packet sockets.
    Unsupported,
    /// The socket of an interface failed.
    Slave(String, FfiError),
}

impl ListenerError {
    /// The text shown for the error.
    pub open spec fn text(&self) -> Seq<char> {
        match self {
            ListenerError::NoSlaves =>
                "listen6672: Slaves required (config.ResolveIfaceList must be called)"@,
            ListenerError::Unsupported =>
                "listen6672: PF_PACKET only supported on Linux; build for linux/* and run as root"@,
            ListenerError::Slave(iface, e) => "slave "@ + iface@ + ": "@ + e.text(),
        }
    }

    /// The text shown for the error.
    pub fn message(&self) -> (out: String)
        ensures
            out@ == self.text(),
    {
        match self {
            ListenerError::NoSlaves =>
                "listen6672: Slaves required (config.ResolveIfaceList must be called)".to_owned(),
            ListenerError::Unsupported =>
                "listen6672: PF_PACKET only supported on Linux; build for linux/* and run as root".to_owned(),
            ListenerError::Slave(iface, e) => {
                let mut out = "slave ".to_owned();
                out.append(iface.as_str());
                out.append(": ");
                out.append(e.message().as_str());
                out
            },
        }
    }
}

/// Listens on a set of interfaces.
pub struct Listener<C> {
    pub slaves: Vec<String>,
    pub callbacks: Callbacks,
    pub dedup: Option<Dedup>,
    pub clock: C,
}

impl Listener<MonotonicClock> {
    /// A listener on `slaves`. Copies are dropped where there is more than one.
    pub fn new(slaves: Vec<String>, callbacks: Callbacks) -> (l: Self)
        ensures
            l.slaves == slaves,
            l.callbacks == callbacks,
            l.notes() == (if slaves@.len() > 1 {
                Some(Seq::<(u64, u64)>::empty())
            } else {
                None
            }),
    {
        let dedup = if slaves.len() > 1 {
            Some(Dedup::new())
        } else {
            None
        };
        Listener { slaves, callbacks, dedup, clock: MonotonicClock::new() }
    }
}

impl<C> Listener<C> {
    /// The notes on past frames, where copies are dropped.
    pub open spec fn notes(&self) -> Option<Seq<(u64, u64)>> {
        match self.dedup {
            Some(d) => Some(d@),
            None => None,
        }
    }

    /// The same listener with another clock.
    pub fn with_clock<D>(self, clock: D) -> (l: Listener<D>)
        ensures
            l.slaves == self.slaves,
            l.callbacks == self.callbacks,
            l.dedup == self.dedup,
            l.clock == clock,
    {
        Listener { slaves: self.slaves, callbacks: self.callbacks, dedup: self.dedup, clock }
    }

    /// The same listener, dropping the copies that `dedup` knows of.
    pub fn with_dedup(self, dedup: Dedup) -> (l: Self)
        ensures
            l.slaves == self.slaves,
            l.callbacks == self.callbacks,
            l.dedup == Some(dedup),
            l.clock == self.clock,
    {
        Listener { slaves: self.slaves, callbacks: self.callbacks, dedup: Some(dedup), clock: self.clock }
    }

    /// Takes one payload.
    pub fn dispatch(&self, src_ip: [u8; 4], payload: &[u8]) -> (d: Dispatched)
        ensures
            d.follows(self.callbacks, src_ip@, payload@),
    {
        if payload.len() != FRAME_SIZE {
            let mut log = "listen6672: drop non-21B payload (len=".to_owned();
            push_dec(&mut log, payload.len() as u64);
            log.append(")");
            return Dispatched { log: Some(log), event: None };
        }
        let f = match parse_frame(payload) {
            Ok(f) => f,
            Err(e) => {
                let mut log = "listen6672: parse error: ".to_owned();
                log.append(e.message().as_str());
                return Dispatched { log: Some(log), event: None };
            },
        };
        match classify(&f) {
            EventKind::Ring => {
                let mut log = "Capture: Ring captured from ".to_owned();
                push_ip(&mut log, src_ip);
                let event = if self.callbacks.on_ring {
                    Some((EventKind::Ring, f))
                } else {
                    None
                };
                Dispatched { log: Some(log), event }
            },
            EventKind::ElevatorKey => {
                let event = if self.callbacks.on_elevator_key {
                    Some((EventKind::ElevatorKey, f))
                } else {
                    None
                };
                Dispatched { log: Some("indoor station elevator key, ignored".to_owned()), event }
            },
            EventKind::KeepAlive => Dispatched { log: None, event: None },
            EventKind::NumberQuery => {
                let event = if self.callbacks.on_number_query {
                    Some((EventKind::NumberQuery, f))
                } else {
                    None
                };
                Dispatched { log: None, event }
            },
            EventKind::NumberResponse => {
                let event = if self.callbacks.on_number_response {
                    Some((EventKind::NumberResponse, f))
                } else {
                    None
                };
                Dispatched { log: None, event }
            },
            EventKind::Unknown => {
                let mut log = "listen6672: unknown frame subtype=0x".to_owned();
                push_byte_hex(&mut log, f.subtype);
                Dispatched { log: Some(log), event: None }
            },
        }
    }

    /// What taking a payload at the time `now` may lead to.
    pub open spec fn takes(
        &self,
        src_ip: Seq<u8>,
        src_port: u16,
        p: Seq<u8>,
        now: u64,
        d: Dispatched,
        after: Self,
    ) -> bool {
        let key = dedup::frame_key(src_ip, src_port, p, 21);
        &&& after.slaves == self.slaves
        &&& after.callbacks == self.callbacks
        &&& after.clock == self.clock
        &&& match self.notes() {
            Some(notes) => {
                &&& after.notes() == Some(dedup::notes_after(notes, key, now))
                &&& if dedup::noted(notes, key, now as int) {
                    d.nothing()
                } else {
                    d.follows(self.callbacks, src_ip, p)
                }
            },
            None => after.notes() is None && d.follows(self.callbacks, src_ip, p),
        }
    }

    /// Takes one payload that came at the time `now`, unless it is a copy.
    pub fn dispatch_at(&mut self, src_ip: [u8; 4], src_port: u16, payload: &[u8], now: u64) -> (d:
        Dispatched)
        ensures
            old(self).takes(src_ip@, src_port, payload@, now, d, *final(self)),
    {
        if let Some(dedup) = &mut self.dedup {
            let key: u64 = dedup_key(src_ip, src_port, payload);
            if dedup.seen(key, now) {
                return Dispatched { log: None, event: None };
            }
        }
        self.dispatch(src_ip, payload)
    }

    /// What comes before listening: an interface and a platform that can listen are needed.
    pub fn run(&self, supported: bool) -> (r: Result<(), ListenerError>)
        ensures
            match r {
                Ok(_) => self.slaves@.len() > 0 && supported,
                Err(ListenerError::NoSlaves) => self.slaves@.len() == 0,
                Err(ListenerError::Unsupported) => self.slaves@.len() > 0 && !supported,
                Err(ListenerError::Slave(_, _)) => false,
            },
    {
        if self.slaves.is_empty() {
            return Err(ListenerError::NoSlaves);
        }
        if !supported {
            return Err(ListenerError::Unsupported);
        }
        Ok(())
    }

    /// The line for an interface on which listening has started.
    pub fn started_line(&self, iface: &str, ifindex: u32) -> (line: String)
        ensures
            line@ == "listen6672: started on "@ + iface@ + " (ifindex="@ + text::dec(ifindex as nat)
                + ", PROMISC, BPF active, dedup="@ + (if self.dedup is Some {
                "true"@
            } else {
                "false"@
            }) + ")"@,
    {
        let mut line = "listen6672: started on ".to_owned();
        line.append(iface);
        line.append(" (ifindex=");
        push_dec(&mut line, ifindex as u64);
        line.append(", PROMISC, BPF active, dedup=");
        line.append(
            if self.dedup.is_some() {
                "true"
            } else {
                "false"
            },
        );
        line.append(")");
        line
    }

    /// The line for an interface whose reads cannot be given a time limit.
    pub fn no_timeout_line(iface: &str, e: &FfiError) -> (line: String)
        ensures
            line@ == "listen6672: SO_RCVTIMEO set failed on "@ + iface@ + ": "@ + e.text()
                + " (continuing)"@,
    {
        let mut line = "listen6672: SO_RCVTIMEO set failed on ".to_owned();
        line.append(iface);
        line.append(": ");
        line.append(e.message().as_str());
        line.append(" (continuing)");
        line
    }

    /// What listening came to, where it came to `so_far` before the interface `iface` failed: the
    /// first failure counts.
    pub fn slave_failed(so_far: Result<(), ListenerError>, iface: &str, e: FfiError) -> (r: Result<
        (),
        ListenerError,
    >)
        ensures
            match so_far {
                Err(_) => r == so_far,
                Ok(_) => r matches Err(ListenerError::Slave(name, cause)) && name@ == iface@ && cause
                    == e,
            },
    {
        match so_far {
            Ok(_) => Err(ListenerError::Slave(iface.to_owned(), e)),
            Err(first) => Err(first),
        }
    }
}

/// A payload that two interfaces pick up within the window is taken once. After the window it is
/// taken again.
pub proof fn law_copy_is_dropped<C>(
    l: Listener<C>,
    src_ip: Seq<u8>,
    src_port: u16,
    p: Seq<u8>,
    now: u64,
    later: u64,
    first: Dispatched,
    mid: Listener<C>,
    second: Dispatched,
    end: Listener<C>,
)
    requires
        l.notes() is Some,
        l.takes(src_ip, src_port, p, now, first, mid),
        mid.takes(src_ip, src_port, p, later, second, end),
        !dedup::noted(l.notes()->0, dedup::frame_key(src_ip, src_port, p, 21), now as int),
        now <= later,
    ensures
        first.follows(l.callbacks, src_ip, p),
        later - now <= DEDUP_WINDOW_MS ==> second.nothing(),
        later - now > DEDUP_WINDOW_MS ==> second.follows(l.callbacks, src_ip, p),
{
    dedup::law_copy_is_noted(
        l.notes()->0,
        dedup::frame_key(src_ip, src_port, p, 21),
        now,
        later,
    );
}

impl<C: Clock> Listener<C> {
    /// What taking a payload at a time that the listener's clock gives may lead to.
    pub open spec fn takes_now(
        &self,
        src_ip: Seq<u8>,
        src_port: u16,
        p: Seq<u8>,
        d: Dispatched,
        after: Self,
    ) -> bool {
        exists|now: u64|
            #[trigger] self.takes(src_ip, src_port, p, now, d, after) && call_ensures(
                C::now_ms,
                (&self.clock,),
                now,
            )
    }

    /// Takes one payload that came now by the listener's clock, unless it is a copy.
    pub fn dispatch_with_dedup(&mut self, src_ip: [u8; 4], src_port: u16, payload: &[u8]) -> (d:
        Dispatched)
        ensures
            old(self).takes_now(src_ip@, src_port, payload@, d, *final(self)),
    {
        let now: u64 = self.clock.now_ms();
        self.dispatch_at(src_ip, src_port, payload, now)
    }
}

/// Only the clock decides what a copy is. A payload that was new when the clock read `now` is
/// taken again when it comes once more and the clock reads `later` exactly if more than a window
/// lies between the two readings.
pub proof fn law_clock_decides<C: Clock, D: Clock>(
    l: Listener<C>,
    src_ip: Seq<u8>,
    src_port: u16,
    p: Seq<u8>,
    now: u64,
    later: u64,
    first: Dispatched,
    mid: Listener<C>,
    again: Listener<D>,
    second: Dispatched,
    end: Listener<D>,
)
    requires
        l.notes() is Some,
        dedup::reads_only(l.clock, now),
        l.takes_now(src_ip, src_port, p, first, mid),
        again.callbacks == mid.callbacks,
        again.dedup == mid.dedup,
        dedup::reads_only(again.clock, later),
        again.takes_now(src_ip, src_port, p, second, end),
        !dedup::noted(l.notes()->0, dedup::frame_key(src_ip, src_port, p, 21), now as int),
        now <= later,
    ensures
        first.follows(l.callbacks, src_ip, p),
        later - now <= DEDUP_WINDOW_MS ==> second.nothing(),
        later - now > DEDUP_WINDOW_MS ==> second.follows(l.callbacks, src_ip, p),
{
    dedup::law_copy_is_noted(
        l.notes()->0,
        dedup::frame_key(src_ip, src_port, p, 21),
        now,
        later,
    );
}

/// A payload that is noted at the time that the clock reads is dropped, on however many
/// interfaces the listener listens. One that was taken is noted.
pub proof fn law_notes_decide<C: Clock>(
    l: Listener<C>,
    src_ip: Seq<u8>,
    src_port: u16,
    p: Seq<u8>,
    now: u64,
    d: Dispatched,
    after: Listener<C>,
)
    requires
        l.notes() is Some,
        dedup::reads_only(l.clock, now),
        l.takes_now(src_ip, src_port, p, d, after),
    ensures
        ({
            let key = dedup::frame_key(src_ip, src_port, p, 21);
            &&& dedup::noted(l.notes()->0, key, now as int) ==> d.nothing() && after.notes()
                == l.notes()
            &&& !dedup::noted(l.notes()->0, key, now as int) ==> d.follows(l.callbacks, src_ip, p)
            &&& dedup::noted(after.notes()->0, key, now as int)
        }),
{
    let key = dedup::frame_key(src_ip, src_port, p, 21);
    if !dedup::noted(l.notes()->0, key, now as int) {
        dedup::law_copy_is_noted(l.notes()->0, key, now, now);
    }
}

} // verus!
