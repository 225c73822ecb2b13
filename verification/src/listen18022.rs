//! Frames on TCP port 18022: what is seen on the wire, and who is told of it.

use vstd::prelude::*;
use vstd::slice::{slice_subrange, slice_to_vec};
use vstd::string::*;

use crate::codec;
use crate::codec::push_ip;
use crate::dedup;
use crate::dedup::key_of;
use crate::ffi::FfiError;
use crate::text;
use crate::text::{push_byte_hex, push_dec, push_dec_int};
use crate::wire18022;
use crate::wire18022::parse_response_frame;

pub use crate::dedup::{
    fnv1a_64, Clock, Dedup, MonotonicClock, DEDUP_CAPACITY, DEDUP_WINDOW_MS,
};

verus! {

/// How many bytes of a payload count for telling copies.
pub const MAX_HASH_BYTES: usize = 64;

/// How many frames wait for a subscriber.
pub const SUBSCRIPTION_ROOM: usize = 8;

// ---------------------------------------------------------------------------
// Frames
// ---------------------------------------------------------------------------

/// A frame that was seen.
#[derive(Debug, Clone, PartialEq, Eq)]
pub struct DetectedFrame {
    /// The request number.
    pub req: i64,
    pub body: Vec<u8>,
    pub src_ip: [u8; 4],
    pub dst_ip: [u8; 4],
    pub src_port: u16,
    pub dst_port: u16,
}

/// `DetectedFrame` with its body as a sequence.
pub struct DetectedView {
    pub req: i64,
    pub body: Seq<u8>,
    pub src_ip: [u8; 4],
    pub dst_ip: [u8; 4],
    pub src_port: u16,
    pub dst_port: u16,
}

impl View for DetectedFrame {
    type V = DetectedView;

    open spec fn view(&self) -> DetectedView {
        DetectedView {
            req: self.req,
            body: self.body@,
            src_ip: self.src_ip,
            dst_ip: self.dst_ip,
            src_port: self.src_port,
            dst_port: self.dst_port,
        }
    }
}

impl DetectedFrame {
    /// A frame with the same contents.
    pub fn copy(&self) -> (f: Self)
        ensures
            f@ == self@,
    {
        DetectedFrame {
            req: self.req,
            body: slice_to_vec(self.body.as_slice()),
            src_ip: self.src_ip,
            dst_ip: self.dst_ip,
            src_port: self.src_port,
            dst_port: self.dst_port,
        }
    }
}

/// Reads the request number and the body of a payload.
pub fn parse_frame(payload: &[u8]) -> (r: Option<(i64, Vec<u8>)>)
    ensures
        match r {
            Some((n, body)) => wire18022::frame_parts(payload@) == Some((n, body@)),
            None => wire18022::frame_parts(payload@) is None,
        },
{
    parse_response_frame(payload)
}

/// Payload, source and destination address, and source and destination port of an Ethernet frame
/// that carries TCP over IPv4.
pub open spec fn tcp_parts(f: Seq<u8>) -> Option<(Seq<u8>, Seq<u8>, Seq<u8>, u16, u16)> {
    let ihl = f[14] % 16 * 4;
    let tcp = 14 + ihl;
    let off = f[tcp + 12] / 16 * 4;
    if f.len() < 54 || f[12] != 8 || f[13] != 0 || ihl < 20 || f.len() < tcp + 20 || f[23] != 6
        || off < 20 || f.len() < tcp + off {
        None
    } else {
        Some(
            (
                f.skip(tcp + off),
                f.subrange(26, 30),
                f.subrange(30, 34),
                (f[tcp] * 256 + f[tcp + 1]) as u16,
                (f[tcp + 2] * 256 + f[tcp + 3]) as u16,
            ),
        )
    }
}

/// Payload, source and destination address, and source and destination port of an Ethernet frame
/// that carries TCP over IPv4. The payload may be empty.
pub fn extract_tcp_payload(frame: &[u8]) -> (r: Option<(Vec<u8>, [u8; 4], [u8; 4], u16, u16)>)
    ensures
        match r {
            Some((payload, src, dst, sp, dp)) => tcp_parts(frame@) == Some(
                (payload@, src@, dst@, sp, dp),
            ),
            None => tcp_parts(frame@) is None,
        },
{
    if frame.len() < 54 {
        return None;
    }
    if frame[12] != 8 || frame[13] != 0 {
        return None;
    }
    let ihl: usize = (frame[14] % 16) as usize * 4;
    if ihl < 20 || frame.len() - 14 < ihl + 20 {
        return None;
    }
    if frame[23] != 6 {
        return None;
    }
    let src: [u8; 4] = [frame[26], frame[27], frame[28], frame[29]];
    let dst: [u8; 4] = [frame[30], frame[31], frame[32], frame[33]];
    let tcp: usize = 14 + ihl;
    let sp: u16 = frame[tcp] as u16 * 256 + frame[tcp + 1] as u16;
    let dp: u16 = frame[tcp + 2] as u16 * 256 + frame[tcp + 3] as u16;
    let off: usize = (frame[tcp + 12] / 16) as usize * 4;
    if off < 20 || frame.len() - tcp < off {
        return None;
    }
    let payload = slice_to_vec(slice_subrange(frame, tcp + off, frame.len()));
    assert(payload@ =~= frame@.skip(tcp + off));
    assert(src@ =~= frame@.subrange(26, 30));
    assert(dst@ =~= frame@.subrange(30, 34));
    Some((payload, src, dst, sp, dp))
}

// ---------------------------------------------------------------------------
// Direction
// ---------------------------------------------------------------------------

/// Between which devices a frame goes.
#[derive(Debug, Clone, Copy, PartialEq, Eq, Structural)]
pub enum Direction {
    Unknown,
    OutdoorToIndoor,
    IndoorToOutdoor,
    DaemonToOutdoor,
    DaemonToIndoor,
    OutdoorToDaemon,
    IndoorToDaemon,
}

impl Direction {
    /// The direction as it stands in the log.
    pub open spec fn name(&self) -> Seq<char> {
        match self {
            Direction::OutdoorToIndoor => "outdoor→indoor"@,
            Direction::IndoorToOutdoor => "indoor→outdoor"@,
            Direction::DaemonToOutdoor => "daemon→outdoor"@,
            Direction::DaemonToIndoor => "daemon→indoor"@,
            Direction::OutdoorToDaemon => "outdoor→daemon"@,
            Direction::IndoorToDaemon => "indoor→daemon"@,
            Direction::Unknown => "unknown"@,
        }
    }

    /// The direction as it stands in the log.
    pub fn as_str(&self) -> (out: &'static str)
        ensures
            out@ == self.name(),
    {
        match self {
            Direction::OutdoorToIndoor => "outdoor→indoor",
            Direction::IndoorToOutdoor => "indoor→outdoor",
            Direction::DaemonToOutdoor => "daemon→outdoor",
            Direction::DaemonToIndoor => "daemon→indoor",
            Direction::OutdoorToDaemon => "outdoor→daemon",
            Direction::IndoorToDaemon => "indoor→daemon",
            Direction::Unknown => "unknown",
        }
    }
}

/// Whether one of the addresses is `ip`.
pub open spec fn listed(ips: Seq<[u8; 4]>, ip: Seq<u8>) -> bool {
    exists|i: int| 0 <= i < ips.len() && (#[trigger] ips[i])@ == ip
}

/// Whether `known` is the address `ip`.
pub open spec fn is_ip(known: Option<[u8; 4]>, ip: Seq<u8>) -> bool {
    known is Some && (known->0)@ == ip
}

/// The direction of a frame between two addresses, given those that are known.
pub open spec fn direction_of(
    src: Seq<u8>,
    dst: Seq<u8>,
    daemon: Option<[u8; 4]>,
    indoor: Option<[u8; 4]>,
    outdoor: Seq<[u8; 4]>,
) -> Direction {
    if listed(outdoor, src) && is_ip(indoor, dst) {
        Direction::OutdoorToIndoor
    } else if is_ip(indoor, src) && listed(outdoor, dst) {
        Direction::IndoorToOutdoor
    } else if is_ip(daemon, src) && listed(outdoor, dst) {
        Direction::DaemonToOutdoor
    } else if is_ip(daemon, src) && is_ip(indoor, dst) {
        Direction::DaemonToIndoor
    } else if listed(outdoor, src) && is_ip(daemon, dst) {
        Direction::OutdoorToDaemon
    } else if is_ip(indoor, src) && is_ip(daemon, dst) {
        Direction::IndoorToDaemon
    } else {
        Direction::Unknown
    }
}

/// Whether two addresses are the same.
pub fn same_ip(a: [u8; 4], b: [u8; 4]) -> (r: bool)
    ensures
        r == (a@ == b@),
{
    let r = a[0] == b[0] && a[1] == b[1] && a[2] == b[2] && a[3] == b[3];
    proof {
        if r {
            assert(a@ =~= b@);
        }
    }
    r
}

fn is_known(known: Option<[u8; 4]>, ip: [u8; 4]) -> (r: bool)
    ensures
        r == is_ip(known, ip@),
{
    match known {
        Some(k) => same_ip(k, ip),
        None => false,
    }
}

fn holds_ip(ips: &[[u8; 4]], ip: [u8; 4]) -> (r: bool)
    ensures
        r == listed(ips@, ip@),
{
    let mut i: usize = 0;
    while i < ips.len()
        invariant
            i <= ips@.len(),
            forall|j: int| 0 <= j < i ==> (#[trigger] ips@[j])@ != ip@,
        decreases ips@.len() - i,
    {
        if same_ip(ips[i], ip) {
            assert(ips@[i as int]@ == ip@);
            return true;
        }
        i = i + 1;
    }
    false
}

/// The direction of a frame between two addresses. An address that is not known matches nothing.
pub fn infer_direction(
    src_ip: [u8; 4],
    dst_ip: [u8; 4],
    daemon_ip: Option<[u8; 4]>,
    indoor_ip: Option<[u8; 4]>,
    outdoor_ips: &[[u8; 4]],
) -> (d: Direction)
    ensures
        d == direction_of(src_ip@, dst_ip@, daemon_ip, indoor_ip, outdoor_ips@),
{
    let src_is_daemon = is_known(daemon_ip, src_ip);
    let dst_is_daemon = is_known(daemon_ip, dst_ip);
    let src_is_indoor = is_known(indoor_ip, src_ip);
    let dst_is_indoor = is_known(indoor_ip, dst_ip);
    let src_is_outdoor = holds_ip(outdoor_ips, src_ip);
    let dst_is_outdoor = holds_ip(outdoor_ips, dst_ip);
    if src_is_outdoor && dst_is_indoor {
        Direction::OutdoorToIndoor
    } else if src_is_indoor && dst_is_outdoor {
        Direction::IndoorToOutdoor
    } else if src_is_daemon && dst_is_outdoor {
        Direction::DaemonToOutdoor
    } else if src_is_daemon && dst_is_indoor {
        Direction::DaemonToIndoor
    } else if src_is_outdoor && dst_is_daemon {
        Direction::OutdoorToDaemon
    } else if src_is_indoor && dst_is_daemon {
        Direction::IndoorToDaemon
    } else {
        Direction::Unknown
    }
}

/// A direction is only told where both ends are known: with neither the daemon's nor the indoor
/// station's address there is none.
pub proof fn law_no_address_no_direction(src: Seq<u8>, dst: Seq<u8>, outdoor: Seq<[u8; 4]>)
    ensures
        direction_of(src, dst, None, None, outdoor) is Unknown,
{
}

// ---------------------------------------------------------------------------
// Log lines
// ---------------------------------------------------------------------------

/// What a request number stands for.
pub open spec fn note_of(req: int) -> Seq<char> {
    if req == 704 {
        "invite-query"@
    } else if req == 705 {
        "invite-ack"@
    } else if req == 708 {
        "bye"@
    } else if req == 709 {
        "bye-ack"@
    } else if req == 710 {
        "unlock-A"@
    } else if req == 711 || req == 519 {
        "ack-OK"@
    } else if req == 564 || req == 565 || req == 840 || req == 841 || req == 888 || req == 889 {
        "ring-late-state"@
    } else {
        ""@
    }
}

/// What the first body byte of a request 518 stands for.
pub open spec fn variant_of(b: u8) -> Seq<char> {
    if b == 0x1b {
        "state-notify"@
    } else if b == 0x22 {
        "unlock-B-standard"@
    } else if b == 0xed {
        "appoint-variant"@
    } else {
        "unknown-variant-0x"@ + text::byte_hex(b)
    }
}

/// The log line for a frame.
pub open spec fn frame_line(
    req: i64,
    src: Seq<u8>,
    dst: Seq<u8>,
    body: Seq<u8>,
    dir: Direction,
) -> Seq<char> {
    let start = "listen18022: detected req="@ + text::dec_int(req as int) + " "@ + dir.name() + " "@
        + codec::ip_text(src) + " → "@ + codec::ip_text(dst);
    if req == 518 && body.len() > 0 {
        start + " byte0=0x"@ + text::byte_hex(body[0]) + " ("@ + variant_of(body[0]) + ")"@
    } else if note_of(req as int).len() > 0 {
        start + " ("@ + note_of(req as int) + ")"@
    } else {
        start
    }
}

fn req_note(req: i64) -> (out: &'static str)
    ensures
        out@ == note_of(req as int),
{
    match req {
        704 => "invite-query",
        705 => "invite-ack",
        708 => "bye",
        709 => "bye-ack",
        710 => "unlock-A",
        711 => "ack-OK",
        519 => "ack-OK",
        564 | 565 | 840 | 841 | 888 | 889 => "ring-late-state",
        _ => "",
    }
}

/// The log line for a frame.
pub fn format_log(
    req: i64,
    src_ip: [u8; 4],
    dst_ip: [u8; 4],
    body: &[u8],
    dir: Direction,
) -> (out: String)
    ensures
        out@ == frame_line(req, src_ip@, dst_ip@, body@, dir),
{
    let note = req_note(req);
    let mut out = "listen18022: detected req=".to_owned();
    push_dec_int(&mut out, req);
    out.append(" ");
    out.append(dir.as_str());
    out.append(" ");
    push_ip(&mut out, src_ip);
    out.append(" → ");
    push_ip(&mut out, dst_ip);
    if req == 518 && body.len() > 0 {
        let b: u8 = body[0];
        out.append(" byte0=0x");
        push_byte_hex(&mut out, b);
        out.append(" (");
        match b {
            0x1b => out.append("state-notify"),
            0x22 => out.append("unlock-B-standard"),
            0xed => out.append("appoint-variant"),
            _ => {
                let mut variant = "unknown-variant-0x".to_owned();
                push_byte_hex(&mut variant, b);
                out.append(variant.as_str());
            },
        }
        out.append(")");
        return out;
    }
    if note.unicode_len() > 0 {
        out.append(" (");
        out.append(note);
        out.append(")");
    }
    out
}

// ---------------------------------------------------------------------------
// Subscriptions
// ---------------------------------------------------------------------------

/// Picks the frames that a subscriber is told of.
pub trait FrameFilter {
    /// Whether `f` is picked.
    spec fn picks(&self, f: DetectedView) -> bool;

    fn pass(&self, f: &DetectedFrame) -> (r: bool)
        ensures
            r == self.picks(f@),
    ;
}

/// A subscriber: its filter, where it has one, and the frames that wait for it.
pub struct SubEntry<F> {
    pub id: usize,
    pub filter: Option<F>,
    /// Whether it was cancelled.
    pub closed: bool,
    pub waiting: Vec<DetectedFrame>,
}

/// `SubEntry` with its frames as a sequence.
pub struct SubView<F> {
    pub id: usize,
    pub filter: Option<F>,
    pub closed: bool,
    pub waiting: Seq<DetectedView>,
}

/// Frames as views.
pub open spec fn frame_views(v: Seq<DetectedFrame>) -> Seq<DetectedView> {
    Seq::new(v.len(), |i: int| v[i]@)
}

impl<F> View for SubEntry<F> {
    type V = SubView<F>;

    open spec fn view(&self) -> SubView<F> {
        SubView {
            id: self.id,
            filter: self.filter,
            closed: self.closed,
            waiting: frame_views(self.waiting@),
        }
    }
}

/// Subscribers as views.
pub open spec fn sub_views<F>(v: Seq<SubEntry<F>>) -> Seq<SubView<F>> {
    Seq::new(v.len(), |i: int| v[i]@)
}

/// No two subscribers share a number, and all numbers are below `next`.
pub open spec fn numbered<F>(subs: Seq<SubView<F>>, next: usize) -> bool {
    &&& forall|i: int, j: int|
        0 <= i < j < subs.len() ==> (#[trigger] subs[i]).id != (#[trigger] subs[j]).id
    &&& forall|i: int| 0 <= i < subs.len() ==> (#[trigger] subs[i]).id < next
}

/// Where the subscriber `id` stands.
pub open spec fn place_of<F>(subs: Seq<SubView<F>>, id: usize) -> Option<int>
    decreases subs.len(),
{
    if subs.len() == 0 {
        None
    } else if subs.last().id == id {
        Some(subs.len() - 1)
    } else {
        place_of(subs.drop_last(), id)
    }
}

/// A subscriber after `f` was seen: the frame waits for it where the subscription is not
/// cancelled, the filter picks the frame and there is room.
pub open spec fn told<F: FrameFilter>(s: SubView<F>, f: DetectedView) -> SubView<F> {
    if !s.closed && (s.filter is None || s.filter->0.picks(f)) && s.waiting.len()
        < SUBSCRIPTION_ROOM {
        SubView { waiting: s.waiting.push(f), ..s }
    } else {
        s
    }
}

/// The subscribers after `f` was seen.
pub open spec fn all_told<F: FrameFilter>(subs: Seq<SubView<F>>, f: DetectedView) -> Seq<
    SubView<F>,
> {
    Seq::new(subs.len(), |i: int| told(subs[i], f))
}

/// The subscribers after `id` was cancelled.
pub open spec fn cancelled<F>(subs: Seq<SubView<F>>, id: usize) -> Seq<SubView<F>> {
    match place_of(subs, id) {
        Some(i) => subs.update(i, (SubView { closed: true, ..subs[i] })),
        None => subs,
    }
}

/// The subscribers after `id` is gone.
pub open spec fn dropped<F>(subs: Seq<SubView<F>>, id: usize) -> Seq<SubView<F>> {
    match place_of(subs, id) {
        Some(i) => subs.remove(i),
        None => subs,
    }
}

/// The place found holds the subscriber; where none is found, none holds it.
pub proof fn lemma_place<F>(subs: Seq<SubView<F>>, id: usize)
    ensures
        match place_of(subs, id) {
            Some(i) => 0 <= i < subs.len() && subs[i].id == id && forall|j: int|
                i < j < subs.len() ==> (#[trigger] subs[j]).id != id,
            None => forall|j: int| 0 <= j < subs.len() ==> (#[trigger] subs[j]).id != id,
        },
    decreases subs.len(),
{
    if subs.len() > 0 && subs.last().id != id {
        let rest = subs.drop_last();
        lemma_place(rest, id);
        assert forall|j: int|
            (match place_of(subs, id) {
                Some(i) => i < j < subs.len(),
                None => 0 <= j < subs.len(),
            }) implies (#[trigger] subs[j]).id != id by {
            if j < rest.len() {
                assert(rest[j] == subs[j]);
            }
        }
    }
}

/// The place is the one that holds the subscriber, where no other does.
proof fn lemma_place_is<F>(subs: Seq<SubView<F>>, id: usize, i: int)
    requires
        0 <= i < subs.len(),
        subs[i].id == id,
        forall|j: int| i < j < subs.len() ==> (#[trigger] subs[j]).id != id,
    ensures
        place_of(subs, id) == Some(i),
{
    lemma_place(subs, id);
    match place_of(subs, id) {
        Some(k) => {
            assert(subs[k].id == id);
        },
        None => {
            assert(subs[i].id != id);
        },
    }
}

/// Cancelling a subscription a second time changes nothing.
pub proof fn law_cancel_twice<F>(subs: Seq<SubView<F>>, id: usize)
    ensures
        cancelled(cancelled(subs, id), id) == cancelled(subs, id),
{
    lemma_place(subs, id);
    if let Some(i) = place_of(subs, id) {
        let once = cancelled(subs, id);
        assert forall|j: int| i < j < once.len() implies (#[trigger] once[j]).id != id by {
            assert(once[j] == subs[j]);
        }
        lemma_place_is(once, id, i);
        assert(cancelled(once, id) =~= once);
    }
}

/// A cancelled subscriber is told of no further frame, and all others are told as before.
pub proof fn law_cancel_ends_delivery<F: FrameFilter>(
    subs: Seq<SubView<F>>,
    next: usize,
    id: usize,
    f: DetectedView,
    i: int,
)
    requires
        numbered(subs, next),
        0 <= i < subs.len(),
    ensures
        subs[i].id == id ==> all_told(cancelled(subs, id), f)[i].waiting == subs[i].waiting,
        subs[i].id != id ==> all_told(cancelled(subs, id), f)[i] == all_told(subs, f)[i],
{
    lemma_place(subs, id);
    if let Some(k) = place_of(subs, id) {
        if i != k {
            assert(subs[i].id != subs[k].id);
        }
    } else {
        assert(subs[i].id != id);
    }
}

/// However many frames are seen, no more than `SUBSCRIPTION_ROOM` wait for a subscriber, and those
/// that wait already keep their places: a slow subscriber loses the newest.
pub proof fn law_waiting_bounded<F: FrameFilter>(s: SubView<F>, f: DetectedView)
    requires
        s.waiting.len() <= SUBSCRIPTION_ROOM,
    ensures
        told(s, f).waiting.len() <= SUBSCRIPTION_ROOM,
        told(s, f).waiting.take(s.waiting.len() as int) == s.waiting,
{
    assert(told(s, f).waiting.take(s.waiting.len() as int) =~= s.waiting);
}

/// The next frame of a subscription, or why there is none.
#[derive(Debug)]
pub enum Received {
    Frame(DetectedFrame),
    /// None waits at the moment.
    Empty,
    /// None waits, and none will come.
    Disconnected,
}

/// A subscription.
#[derive(Debug)]
pub struct Subscription {
    pub id: usize,
}

// ---------------------------------------------------------------------------
// Listener
// ---------------------------------------------------------------------------

/// The key under which a frame is remembered.
pub fn dedup_key(src_ip: [u8; 4], src_port: u16, payload: &[u8]) -> (k: u64)
    ensures
        k == dedup::frame_key(src_ip@, src_port, payload@, 64),
{
    key_of(src_ip, src_port, payload, MAX_HASH_BYTES)
}

/// Why listening ended.
#[derive(Debug)]
pub enum ListenerError {
    /// There is no interface to listen on.
    NoSlaves,
    /// The platform has no packet sockets.
    Unsupported,
    /// The socket of an interface failed.
    Slave(String, FfiError),
}

impl ListenerError {
    /// The text shown for the error.
    pub open spec fn text(&self) -> Seq<char> {
        match self {
            ListenerError::NoSlaves => "listen18022: Slaves required"@,
            ListenerError::Unsupported =>
                "listen18022: PF_PACKET only supported on Linux; build for linux/* and run as root"@,
            ListenerError::Slave(iface, e) => "slave "@ + iface@ + ": "@ + e.text(),
        }
    }

    /// The text shown for the error.
    pub fn message(&self) -> (out: String)
        ensures
            out@ == self.text(),
    {
        match self {
            ListenerError::NoSlaves => "listen18022: Slaves required".to_owned(),
            ListenerError::Unsupported =>
                "listen18022: PF_PACKET only supported on Linux; build for linux/* and run as root".to_owned(),
            ListenerError::Slave(iface, e) => {
                let mut out = "slave ".to_owned();
                out.append(iface.as_str());
                out.append(": ");
                out.append(e.message().as_str());
                out
            },
        }
    }
}

/// Listens on a set of interfaces and tells its subscribers.
pub struct Listener<C, F> {
    pub slaves: Vec<String>,
    pub dedup: Option<Dedup>,
    pub clock: C,
    pub subs: Vec<SubEntry<F>>,
    pub next_sub_id: usize,
}

/// What a payload holds, as a frame between the given ends.
pub open spec fn detected(
    src_ip: [u8; 4],
    dst_ip: [u8; 4],
    src_port: u16,
    dst_port: u16,
    p: Seq<u8>,
) -> Option<DetectedView> {
    match wire18022::frame_parts(p) {
        Some((req, body)) => Some(DetectedView { req, body, src_ip, dst_ip, src_port, dst_port }),
        None => None,
    }
}

/// Whether `found` is given as `r`, and the subscribers are told of it.
pub open spec fn handed_on<F: FrameFilter>(
    subs: Seq<SubView<F>>,
    found: Option<DetectedView>,
    r: Option<DetectedFrame>,
    after: Seq<SubView<F>>,
) -> bool {
    match r {
        Some(f) => found == Some(f@) && after == all_told(subs, f@),
        None => found is None && after == subs,
    }
}

impl<F> Listener<MonotonicClock, F> {
    /// A listener on `slaves` without subscribers. Copies are dropped where there is more than
    /// one interface.
    pub fn new(slaves: Vec<String>) -> (l: Self)
        ensures
            l.wf(),
            l.slaves == slaves,
            l.notes() == (if slaves@.len() > 1 {
                Some(Seq::<(u64, u64)>::empty())
            } else {
                None
            }),
            l@ == Seq::<SubView<F>>::empty(),
            l.next_sub_id == 0,
    {
        let dedup = if slaves.len() > 1 {
            Some(Dedup::new())
        } else {
            None
        };
        let l = Listener {
            slaves,
            dedup,
            clock: MonotonicClock::new(),
            subs: Vec::new(),
            next_sub_id: 0,
        };
        assert(l@ =~= Seq::<SubView<F>>::empty());
        l
    }
}

impl<C, F> View for Listener<C, F> {
    type V = Seq<SubView<F>>;

    /// The subscribers.
    open spec fn view(&self) -> Seq<SubView<F>> {
        sub_views(self.subs@)
    }
}

impl<C, F> Listener<C, F> {
    /// The subscribers are numbered.
    pub open spec fn wf(&self) -> bool {
        numbered(self@, self.next_sub_id)
    }

    /// The notes on past frames, where copies are dropped.
    pub open spec fn notes(&self) -> Option<Seq<(u64, u64)>> {
        match self.dedup {
            Some(d) => Some(d@),
            None => None,
        }
    }

    /// Whether only the subscribers differ from those of `other`.
    pub open spec fn same_but_subs(&self, other: Self) -> bool {
        &&& self.slaves == other.slaves
        &&& self.dedup == other.dedup
        &&& self.clock == other.clock
        &&& self.next_sub_id == other.next_sub_id
    }

    /// The same listener with another clock.
    pub fn with_clock<D>(self, clock: D) -> (l: Listener<D, F>)
        ensures
            l.slaves == self.slaves,
            l.dedup == self.dedup,
            l.clock == clock,
            l.subs == self.subs,
            l.next_sub_id == self.next_sub_id,
    {
        Listener {
            slaves: self.slaves,
            dedup: self.dedup,
            clock,
            subs: self.subs,
            next_sub_id: self.next_sub_id,
        }
    }

    /// The same listener, dropping the copies that `dedup` knows of.
    pub fn with_dedup(self, dedup: Dedup) -> (l: Self)
        ensures
            l.slaves == self.slaves,
            l.dedup == Some(dedup),
            l.clock == self.clock,
            l.subs == self.subs,
            l.next_sub_id == self.next_sub_id,
    {
        Listener {
            slaves: self.slaves,
            dedup: Some(dedup),
            clock: self.clock,
            subs: self.subs,
            next_sub_id: self.next_sub_id,
        }
    }

    /// What comes before listening: an interface and a platform that can listen are needed.
    pub fn run(&self, supported: bool) -> (r: Result<(), ListenerError>)
        ensures
            match r {
                Ok(_) => self.slaves@.len() > 0 && supported,
                Err(ListenerError::NoSlaves) => self.slaves@.len() == 0,
                Err(ListenerError::Unsupported) => self.slaves@.len() > 0 && !supported,
                Err(ListenerError::Slave(_, _)) => false,
            },
    {
        if self.slaves.is_empty() {
            return Err(ListenerError::NoSlaves);
        }
        if !supported {
            return Err(ListenerError::Unsupported);
        }
        Ok(())
    }

    /// The line for an interface on which listening has started.
    pub fn started_line(&self, iface: &str, ifindex: u32) -> (line: String)
        ensures
            line@ == "listen18022: started on "@ + iface@ + " (ifindex="@ + text::dec(ifindex as nat)
                + ", PROMISC, BPF active, dedup="@ + (if self.dedup is Some {
                "true"@
            } else {
                "false"@
            }) + ")"@,
    {
        let mut line = "listen18022: started on ".to_owned();
        line.append(iface);
        line.append(" (ifindex=");
        push_dec(&mut line, ifindex as u64);
        line.append(", PROMISC, BPF active, dedup=");
        line.append(
            if self.dedup.is_some() {
                "true"
            } else {
                "false"
            },
        );
        line.append(")");
        line
    }

    /// The line for an interface whose reads cannot be given a time limit.
    pub fn no_timeout_line(iface: &str, e: &FfiError) -> (line: String)
        ensures
            line@ == "listen18022: SO_RCVTIMEO set failed on "@ + iface@ + ": "@ + e.text()
                + " (continuing)"@,
    {
        let mut line = "listen18022: SO_RCVTIMEO set failed on ".to_owned();
        line.append(iface);
        line.append(": ");
        line.append(e.message().as_str());
        line.append(" (continuing)");
        line
    }

    /// What listening came to, where it came to `so_far` before the interface `iface` failed: the
    /// first failure counts.
    pub fn slave_failed(so_far: Result<(), ListenerError>, iface: &str, e: FfiError) -> (r: Result<
        (),
        ListenerError,
    >)
        ensures
            match so_far {
                Err(_) => r == so_far,
                Ok(_) => r matches Err(ListenerError::Slave(name, cause)) && name@ == iface@ && cause
                    == e,
            },
    {
        match so_far {
            Ok(_) => Err(ListenerError::Slave(iface.to_owned(), e)),
            Err(first) => Err(first),
        }
    }

    /// Adds a subscriber. Without a filter it is told of every frame.
    pub fn subscribe(&mut self, filter: Option<F>) -> (s: Subscription)
        requires
            old(self).wf(),
            old(self).next_sub_id < usize::MAX,
        ensures
            final(self).wf(),
            s.id == old(self).next_sub_id,
            final(self).next_sub_id == old(self).next_sub_id + 1,
            final(self).slaves == old(self).slaves,
            final(self).dedup == old(self).dedup,
            final(self).clock == old(self).clock,
            final(self)@ == old(self)@.push(
                (SubView {
                    id: s.id,
                    filter,
                    closed: false,
                    waiting: Seq::<DetectedView>::empty(),
                }),
            ),
    {
        let id: usize = self.next_sub_id;
        let entry = SubEntry { id, filter, closed: false, waiting: Vec::new() };
        assert(entry@.waiting =~= Seq::<DetectedView>::empty());
        self.subs.push(entry);
        self.next_sub_id = id + 1;
        assert(self@ =~= old(self)@.push(entry@));
        Subscription { id }
    }

    /// Where the subscriber `id` stands.
    fn find(&self, id: usize) -> (r: Option<usize>)
        requires
            self.wf(),
        ensures
            match r {
                Some(i) => place_of(self@, id) == Some(i as int) && i < self.subs@.len()
                    && self.subs@[i as int].id == id,
                None => place_of(self@, id) is None,
            },
    {
        let mut i: usize = 0;
        while i < self.subs.len()
            invariant
                i <= self.subs@.len(),
                self.wf(),
                forall|j: int| 0 <= j < i ==> (#[trigger] self.subs@[j]).id != id,
            decreases self.subs@.len() - i,
        {
            if self.subs[i].id == id {
                proof {
                    assert(self@[i as int].id == id);
                    assert forall|j: int| i < j < self@.len() implies (#[trigger] self@[j]).id
                        != id by {
                        assert(self@[i as int].id != self@[j].id);
                    }
                    lemma_place_is(self@, id, i as int);
                }
                return Some(i);
            }
            i = i + 1;
        }
        proof {
            lemma_place(self@, id);
            if let Some(k) = place_of(self@, id) {
                assert(self.subs@[k].id != id);
            }
        }
        None
    }
}

impl Subscription {
    /// Cancels the subscription. What waits already can still be received; doing it again has no
    /// effect.
    pub fn cancel<C, F>(&self, l: &mut Listener<C, F>)
        requires
            old(l).wf(),
        ensures
            final(l).wf(),
            final(l).same_but_subs(*old(l)),
            final(l)@ == cancelled(old(l)@, self.id),
    {
        if let Some(i) = l.find(self.id) {
            l.subs[i].closed = true;
            assert(l@ =~= cancelled(old(l)@, self.id));
        }
    }

    /// Ends the subscription and forgets what waits for it.
    pub fn close<C, F>(self, l: &mut Listener<C, F>)
        requires
            old(l).wf(),
        ensures
            final(l).wf(),
            final(l).same_but_subs(*old(l)),
            final(l)@ == dropped(old(l)@, self.id),
    {
        if let Some(i) = l.find(self.id) {
            let _ = l.subs.remove(i);
            assert(l@ =~= dropped(old(l)@, self.id));
        }
    }

    /// The next frame that waits.
    pub fn try_recv<C, F>(&self, l: &mut Listener<C, F>) -> (r: Received)
        requires
            old(l).wf(),
        ensures
            final(l).wf(),
            final(l).same_but_subs(*old(l)),
            match place_of(old(l)@, self.id) {
                None => r is Disconnected && *final(l) == *old(l),
                Some(i) => if old(l)@[i].waiting.len() > 0 {
                    &&& r matches Received::Frame(f)
                    &&& f@ == old(l)@[i].waiting[0]
                    &&& final(l)@ == old(l)@.update(
                        i,
                        (SubView { waiting: old(l)@[i].waiting.skip(1), ..old(l)@[i] }),
                    )
                } else {
                    &&& *final(l) == *old(l)
                    &&& if old(l)@[i].closed {
                        r is Disconnected
                    } else {
                        r is Empty
                    }
                },
            },
    {
        match l.find(self.id) {
            None => Received::Disconnected,
            Some(i) => {
                proof {
                    assert(l@[i as int].waiting.len() == l.subs@[i as int].waiting@.len());
                }
                if l.subs[i].waiting.len() > 0 {
                    let f = l.subs[i].waiting.remove(0);
                    proof {
                        let was = old(l)@[i as int];
                        assert(l@[i as int].waiting =~= was.waiting.skip(1));
                        assert(l@ =~= old(l)@.update(
                            i as int,
                            (SubView { waiting: was.waiting.skip(1), ..was }),
                        ));
                    }
                    Received::Frame(f)
                } else if l.subs[i].closed {
                    Received::Disconnected
                } else {
                    Received::Empty
                }
            },
        }
    }
}

impl<C, F: FrameFilter> Listener<C, F> {
    /// Tells the subscribers of a frame.
    fn dispatch_to_subs(&mut self, frame: &DetectedFrame)
        requires
            old(self).wf(),
        ensures
            final(self).wf(),
            final(self).same_but_subs(*old(self)),
            final(self)@ == all_told(old(self)@, frame@),
    {
        let mut i: usize = 0;
        while i < self.subs.len()
            invariant
                i <= self.subs@.len(),
                self.same_but_subs(*old(self)),
                self@.len() == old(self)@.len(),
                old(self).wf(),
                forall|j: int| 0 <= j < i ==> #[trigger] self@[j] == told(old(self)@[j], frame@),
                forall|j: int| i <= j < self@.len() ==> #[trigger] self@[j] == old(self)@[j],
            decreases self.subs@.len() - i,
        {
            let ghost before = self@;
            assert(before[i as int] == old(self)@[i as int]);
            let picked = match &self.subs[i].filter {
                Some(f) => f.pass(frame),
                None => true,
            };
            if !self.subs[i].closed && picked && self.subs[i].waiting.len() < SUBSCRIPTION_ROOM {
                let copy = frame.copy();
                self.subs[i].waiting.push(copy);
                assert(self@[i as int].waiting =~= before[i as int].waiting.push(frame@));
            }
            assert(self@[i as int] == told(old(self)@[i as int], frame@));
            assert forall|j: int| 0 <= j < self@.len() && j != i implies #[trigger] self@[j]
                == before[j] by {}
            i = i + 1;
        }
        assert(self@ =~= all_told(old(self)@, frame@));
        proof {
            lemma_told_numbered(old(self)@, self.next_sub_id, frame@);
        }
    }

    /// What taking a payload at the time `now` may lead to.
    pub open spec fn takes(
        &self,
        src_ip: [u8; 4],
        dst_ip: [u8; 4],
        src_port: u16,
        dst_port: u16,
        p: Seq<u8>,
        now: u64,
        r: Option<DetectedFrame>,
        after: Self,
    ) -> bool {
        let key = dedup::frame_key(src_ip@, src_port, p, 64);
        let copy = self.notes() is Some && dedup::noted(self.notes()->0, key, now as int);
        let found = if copy {
            None
        } else {
            detected(src_ip, dst_ip, src_port, dst_port, p)
        };
        &&& after.wf()
        &&& after.slaves == self.slaves
        &&& after.clock == self.clock
        &&& after.next_sub_id == self.next_sub_id
        &&& after.notes() == match self.notes() {
            Some(notes) => Some(dedup::notes_after(notes, key, now)),
            None => None,
        }
        &&& handed_on(self@, found, r, after@)
    }

    /// Takes one payload that came at the time `now`, unless it is a copy: tells the subscribers
    /// of the frame in it and gives the frame.
    pub fn dispatch_at(
        &mut self,
        src_ip: [u8; 4],
        dst_ip: [u8; 4],
        src_port: u16,
        dst_port: u16,
        payload: &[u8],
        now: u64,
    ) -> (r: Option<DetectedFrame>)
        requires
            old(self).wf(),
        ensures
            old(self).takes(src_ip, dst_ip, src_port, dst_port, payload@, now, r, *final(self)),
    {
        if let Some(dedup) = &mut self.dedup {
            let key: u64 = dedup_key(src_ip, src_port, payload);
            if dedup.seen(key, now) {
                return None;
            }
        }
        let (req, body) = match parse_frame(payload) {
            Some(parts) => parts,
            None => {
                return None;
            },
        };
        let frame = DetectedFrame { req, body, src_ip, dst_ip, src_port, dst_port };
        self.dispatch_to_subs(&frame);
        Some(frame)
    }
}

/// Telling subscribers of a frame keeps their numbers.
proof fn lemma_told_numbered<F: FrameFilter>(subs: Seq<SubView<F>>, next: usize, f: DetectedView)
    requires
        numbered(subs, next),
    ensures
        numbered(all_told(subs, f), next),
{
    let after = all_told(subs, f);
    assert forall|i: int, j: int| 0 <= i < j < after.len() implies (#[trigger] after[i]).id != (
    #[trigger] after[j]).id by {
        assert(subs[i].id != subs[j].id);
    }
}

/// A payload that two interfaces pick up within the window is taken once: the second time nobody
/// is told of it. After the window it is taken again.
pub proof fn law_copy_is_dropped<C, F: FrameFilter>(
    l: Listener<C, F>,
    src_ip: [u8; 4],
    dst_ip: [u8; 4],
    src_port: u16,
    dst_port: u16,
    p: Seq<u8>,
    now: u64,
    later: u64,
    first: Option<DetectedFrame>,
    mid: Listener<C, F>,
    second: Option<DetectedFrame>,
    end: Listener<C, F>,
)
    requires
        l.notes() is Some,
        l.takes(src_ip, dst_ip, src_port, dst_port, p, now, first, mid),
        mid.takes(src_ip, dst_ip, src_port, dst_port, p, later, second, end),
        !dedup::noted(l.notes()->0, dedup::frame_key(src_ip@, src_port, p, 64), now as int),
        now <= later,
    ensures
        handed_on(l@, detected(src_ip, dst_ip, src_port, dst_port, p), first, mid@),
        later - now <= DEDUP_WINDOW_MS ==> second is None && end@ == mid@,
        later - now > DEDUP_WINDOW_MS ==> handed_on(
            mid@,
            detected(src_ip, dst_ip, src_port, dst_port, p),
            second,
            end@,
        ),
{
    dedup::law_copy_is_noted(
        l.notes()->0,
        dedup::frame_key(src_ip@, src_port, p, 64),
        now,
        later,
    );
}

impl<C: Clock, F: FrameFilter> Listener<C, F> {
    /// What taking a payload at a time that the listener's clock gives may lead to.
    pub open spec fn takes_now(
        &self,
        src_ip: [u8; 4],
        dst_ip: [u8; 4],
        src_port: u16,
        dst_port: u16,
        p: Seq<u8>,
        r: Option<DetectedFrame>,
        after: Self,
    ) -> bool {
        exists|now: u64|
            #[trigger] self.takes(src_ip, dst_ip, src_port, dst_port, p, now, r, after)
                && call_ensures(C::now_ms, (&self.clock,), now)
    }

    /// Takes one payload that came now by the listener's clock, unless it is a copy.
    pub fn dispatch_with_dedup(
        &mut self,
        src_ip: [u8; 4],
        dst_ip: [u8; 4],
        src_port: u16,
        dst_port: u16,
        payload: &[u8],
    ) -> (r: Option<DetectedFrame>)
        requires
            old(self).wf(),
        ensures
            old(self).takes_now(src_ip, dst_ip, src_port, dst_port, payload@, r, *final(self)),
    {
        let now: u64 = self.clock.now_ms();
        self.dispatch_at(src_ip, dst_ip, src_port, dst_port, payload, now)
    }

    /// Takes a payload as if it had come from the wire.
    pub fn dispatch_for_test(
        &mut self,
        src_ip: [u8; 4],
        dst_ip: [u8; 4],
        src_port: u16,
        dst_port: u16,
        payload: &[u8],
    ) -> (r: Option<DetectedFrame>)
        requires
            old(self).wf(),
        ensures
            old(self).takes_now(src_ip, dst_ip, src_port, dst_port, payload@, r, *final(self)),
    {
        self.dispatch_with_dedup(src_ip, dst_ip, src_port, dst_port, payload)
    }
}

/// Only the clock decides what a copy is. A payload that was new when the clock read `now` is
/// taken again when it comes once more and the clock reads `later` exactly if more than a window
/// lies between the two readings.
pub proof fn law_clock_decides<C: Clock, D: Clock, F: FrameFilter>(
    l: Listener<C, F>,
    src_ip: [u8; 4],
    dst_ip: [u8; 4],
    src_port: u16,
    dst_port: u16,
    p: Seq<u8>,
    now: u64,
    later: u64,
    first: Option<DetectedFrame>,
    mid: Listener<C, F>,
    again: Listener<D, F>,
    second: Option<DetectedFrame>,
    end: Listener<D, F>,
)
    requires
        l.notes() is Some,
        dedup::reads_only(l.clock, now),
        l.takes_now(src_ip, dst_ip, src_port, dst_port, p, first, mid),
        again.dedup == mid.dedup,
        dedup::reads_only(again.clock, later),
        again.takes_now(src_ip, dst_ip, src_port, dst_port, p, second, end),
        !dedup::noted(l.notes()->0, dedup::frame_key(src_ip@, src_port, p, 64), now as int),
        now <= later,
    ensures
        handed_on(l@, detected(src_ip, dst_ip, src_port, dst_port, p), first, mid@),
        later - now <= DEDUP_WINDOW_MS ==> second is None && end@ == again@,
        later - now > DEDUP_WINDOW_MS ==> handed_on(
            again@,
            detected(src_ip, dst_ip, src_port, dst_port, p),
            second,
            end@,
        ),
{
    dedup::law_copy_is_noted(
        l.notes()->0,
        dedup::frame_key(src_ip@, src_port, p, 64),
        now,
        later,
    );
}

/// A payload that is noted at the time that the clock reads is dropped, on however many
/// interfaces the listener listens. One that was looked at is noted.
pub proof fn law_notes_decide<C: Clock, F: FrameFilter>(
    l: Listener<C, F>,
    src_ip: [u8; 4],
    dst_ip: [u8; 4],
    src_port: u16,
    dst_port: u16,
    p: Seq<u8>,
    now: u64,
    r: Option<DetectedFrame>,
    after: Listener<C, F>,
)
    requires
        l.notes() is Some,
        dedup::reads_only(l.clock, now),
        l.takes_now(src_ip, dst_ip, src_port, dst_port, p, r, after),
    ensures
        ({
            let key = dedup::frame_key(src_ip@, src_port, p, 64);
            &&& dedup::noted(l.notes()->0, key, now as int) ==> r is None && after@ == l@
                && after.notes() == l.notes()
            &&& !dedup::noted(l.notes()->0, key, now as int) ==> handed_on(
                l@,
                detected(src_ip, dst_ip, src_port, dst_port, p),
                r,
                after@,
            )
            &&& dedup::noted(after.notes()->0, key, now as int)
        }),
{
    let key = dedup::frame_key(src_ip@, src_port, p, 64);
    if !dedup::noted(l.notes()->0, key, now as int) {
        dedup::law_copy_is_noted(l.notes()->0, key, now, now);
    }
}

} // verus!
