//! Frames on TCP port 18022.

use dooraccess_rs::ffi::FfiError;
use dooraccess_rs::listen18022::{
    dedup_key, extract_tcp_payload, fnv1a_64, format_log, infer_direction, parse_frame, Clock,
    Dedup, DetectedFrame, DetectedView, Direction, FrameFilter, Listener, ListenerError, MonotonicClock,
    Received, Subscription,
};
use std::cell::Cell;
use std::rc::Rc;

/// A frame with a head, a request number and a body.
fn wire_frame(req: u32, body: &[u8]) -> Vec<u8> {
    let mut frame_body = Vec::new();
    frame_body.extend_from_slice(format!("req={req}").as_bytes());
    frame_body.extend_from_slice(b"&query=");
    frame_body.extend_from_slice(body);

    let mut frame = Vec::new();
    frame.push(0x07);
    frame.push(0xb8);
    frame.extend_from_slice(&(frame_body.len() as u16).to_le_bytes());
    frame.push(0x00);
    frame.push(0x00);
    frame.extend_from_slice(&frame_body);
    frame
}

/// An untagged Ethernet frame with a TCP payload.
fn build_l2_tcp(
    src_ip: [u8; 4],
    dst_ip: [u8; 4],
    src_port: u16,
    dst_port: u16,
    payload: &[u8],
) -> Vec<u8> {
    let mut frame = Vec::new();
    frame.extend_from_slice(&[0xff; 6]);
    frame.extend_from_slice(&[0x11; 6]);
    frame.extend_from_slice(&0x0800u16.to_be_bytes());

    let tcp_len = 20 + payload.len();
    let total_len = 20 + tcp_len;
    let mut ip = vec![0x45, 0x00];
    ip.extend_from_slice(&(total_len as u16).to_be_bytes());
    ip.extend_from_slice(&[0x00, 0x00, 0x00, 0x00]);
    ip.push(0x40);
    ip.push(6);
    ip.extend_from_slice(&[0x00, 0x00]);
    ip.extend_from_slice(&src_ip);
    ip.extend_from_slice(&dst_ip);
    assert_eq!(ip.len(), 20);
    frame.extend_from_slice(&ip);

    frame.extend_from_slice(&src_port.to_be_bytes());
    frame.extend_from_slice(&dst_port.to_be_bytes());
    frame.extend_from_slice(&[0x00, 0x00, 0x00, 0x00]);
    frame.extend_from_slice(&[0x00, 0x00, 0x00, 0x00]);
    frame.push(0x50);
    frame.push(0x18);
    frame.extend_from_slice(&[0x00, 0x00]);
    frame.extend_from_slice(&[0x00, 0x00]);
    frame.extend_from_slice(&[0x00, 0x00]);
    frame.extend_from_slice(payload);
    frame
}

#[test]
fn parse_frame_extracts_req_and_body() {
    let frame = wire_frame(708, b"target=06020000");
    let (req, body) = parse_frame(&frame).unwrap();
    assert_eq!(req, 708);
    assert_eq!(body, b"target=06020000");
}

#[test]
fn parse_frame_accepts_star_separator() {
    let frame = {
        let mut fb = Vec::new();
        fb.extend_from_slice(b"req=711&query*");
        fb.extend_from_slice(b"ok");
        let mut f = vec![0x07, 0xb8];
        f.extend_from_slice(&(fb.len() as u16).to_le_bytes());
        f.push(0x00);
        f.push(0x00);
        f.extend_from_slice(&fb);
        f
    };
    let (req, body) = parse_frame(&frame).unwrap();
    assert_eq!(req, 711);
    assert_eq!(body, b"ok");
}

#[test]
fn listen18022_parse_frame_rejects_bad_magic() {
    let mut frame = wire_frame(708, b"x");
    frame[0] = 0x00;
    assert!(parse_frame(&frame).is_none());
}

#[test]
fn parse_frame_rejects_non_wire() {
    assert!(parse_frame(&[]).is_none());
    assert!(parse_frame(&[0x00; 4]).is_none());
}

#[test]
fn parse_frame_needs_the_length_given() {
    let mut frame = wire_frame(708, b"body");
    frame.pop();
    assert!(parse_frame(&frame).is_none());
    let mut frame = wire_frame(708, b"body");
    frame.push(9);
    assert_eq!(parse_frame(&frame).unwrap().1, b"body");
}

#[test]
fn infer_direction_outdoor_to_indoor() {
    let daemon = [172, 16, 106, 202];
    let indoor = [172, 16, 106, 91];
    let outdoors = [[172, 16, 106, 152]];
    let got = infer_direction(
        [172, 16, 106, 152],
        [172, 16, 106, 91],
        Some(daemon),
        Some(indoor),
        &outdoors,
    );
    assert_eq!(got, Direction::OutdoorToIndoor);
}

#[test]
fn infer_direction_indoor_to_outdoor() {
    let daemon = [172, 16, 106, 202];
    let indoor = [172, 16, 106, 91];
    let outdoors = [[172, 16, 106, 152]];
    let got = infer_direction(
        [172, 16, 106, 91],
        [172, 16, 106, 152],
        Some(daemon),
        Some(indoor),
        &outdoors,
    );
    assert_eq!(got, Direction::IndoorToOutdoor);
}

#[test]
fn infer_direction_daemon_to_outdoor() {
    let daemon = [172, 16, 106, 202];
    let indoor = [172, 16, 106, 91];
    let outdoors = [[172, 16, 106, 152]];
    let got = infer_direction(
        daemon,
        [172, 16, 106, 152],
        Some(daemon),
        Some(indoor),
        &outdoors,
    );
    assert_eq!(got, Direction::DaemonToOutdoor);
}

#[test]
fn infer_direction_unknown() {
    let daemon = [172, 16, 106, 202];
    let indoor = [172, 16, 106, 91];
    let outdoors = [[172, 16, 106, 152]];
    let got = infer_direction(
        [172, 16, 106, 92],
        [172, 16, 106, 255],
        Some(daemon),
        Some(indoor),
        &outdoors,
    );
    assert_eq!(got, Direction::Unknown);
}

#[test]
fn infer_direction_none_ip_does_not_match() {
    let outdoors = [[172, 16, 106, 152]];
    let got = infer_direction(
        [172, 16, 106, 152],
        [172, 16, 106, 91],
        None,
        None,
        &outdoors,
    );
    assert_eq!(got, Direction::Unknown);
}

#[test]
fn infer_direction_to_the_daemon() {
    let daemon = [10, 0, 0, 1];
    let indoor = [10, 0, 0, 2];
    let out = [10, 0, 0, 3];
    let go = |a, b| infer_direction(a, b, Some(daemon), Some(indoor), &[out]).as_str();
    assert_eq!(go(daemon, indoor), "daemon→indoor");
    assert_eq!(go(out, daemon), "outdoor→daemon");
    assert_eq!(go(indoor, daemon), "indoor→daemon");
}

#[test]
fn format_log_req704_outdoor_to_indoor() {
    let body = [0x06, 0x02, 0x11, 0x03];
    let got = format_log(
        704,
        [172, 16, 106, 152],
        [172, 16, 106, 91],
        &body,
        Direction::OutdoorToIndoor,
    );
    assert_eq!(
        got,
        "listen18022: detected req=704 outdoor→indoor 172.16.106.152 → 172.16.106.91 (invite-query)"
    );
}

#[test]
fn format_log_req518_byte0_1b() {
    let body = [0x1b, 0x06, 0x02, 0x11, 0x03, 0x96];
    let got = format_log(
        518,
        [172, 16, 106, 152],
        [172, 16, 106, 91],
        &body,
        Direction::OutdoorToIndoor,
    );
    assert!(got.contains("byte0=0x1b"), "{got}");
    assert!(got.contains("state-notify"), "{got}");
}

#[test]
fn format_log_req518_byte0_22() {
    let body = [0x22, 0x06, 0x02, 0x11, 0x03];
    let got = format_log(
        518,
        [172, 16, 106, 202],
        [172, 16, 106, 152],
        &body,
        Direction::DaemonToOutdoor,
    );
    assert!(got.contains("unlock-B-standard"), "{got}");
}

#[test]
fn format_log_req518_byte0_ed() {
    let body = [0xed, 0x00, 0x01, 0x00, 0x00];
    let got = format_log(
        518,
        [172, 16, 106, 202],
        [172, 16, 106, 152],
        &body,
        Direction::DaemonToOutdoor,
    );
    assert!(got.contains("appoint-variant"), "{got}");
}

#[test]
fn format_log_req518_byte0_unknown_variant() {
    let body = [0x77];
    let got = format_log(518, [1, 2, 3, 4], [5, 6, 7, 8], &body, Direction::Unknown);
    assert!(got.contains("byte0=0x77"), "{got}");
    assert!(got.contains("unknown-variant-0x77"), "{got}");
    assert_eq!(
        got,
        "listen18022: detected req=518 unknown 1.2.3.4 → 5.6.7.8 byte0=0x77 (unknown-variant-0x77)"
    );
}

#[test]
fn format_log_req710_unlock_a() {
    let body = [0x06, 0x02, 0x00, 0x00, 0x06, 0x02, 0x11, 0x03];
    let got = format_log(
        710,
        [172, 16, 106, 202],
        [172, 16, 106, 152],
        &body,
        Direction::DaemonToOutdoor,
    );
    assert_eq!(
        got,
        "listen18022: detected req=710 daemon→outdoor 172.16.106.202 → 172.16.106.152 (unlock-A)"
    );
}

#[test]
fn format_log_no_note_no_parens() {
    let got = format_log(999, [1, 2, 3, 4], [5, 6, 7, 8], &[], Direction::Unknown);
    assert_eq!(
        got,
        "listen18022: detected req=999 unknown 1.2.3.4 → 5.6.7.8"
    );
}

#[test]
fn extract_tcp_payload_roundtrip() {
    let payload = wire_frame(704, b"q");
    let frame = build_l2_tcp(
        [172, 16, 106, 201],
        [172, 16, 106, 202],
        50000,
        18022,
        &payload,
    );
    let (got, src_ip, dst_ip, src_port, dst_port) = extract_tcp_payload(&frame).unwrap();
    assert_eq!(got, payload);
    assert_eq!(src_ip, [172, 16, 106, 201]);
    assert_eq!(dst_ip, [172, 16, 106, 202]);
    assert_eq!(src_port, 50000);
    assert_eq!(dst_port, 18022);
}

#[test]
fn extract_tcp_payload_empty_payload_ok() {
    let frame = build_l2_tcp([1, 2, 3, 4], [5, 6, 7, 8], 1, 18022, &[]);
    let (got, ..) = extract_tcp_payload(&frame).unwrap();
    assert!(got.is_empty());
}

#[test]
fn extract_tcp_payload_rejects_non_ipv4() {
    let mut frame = build_l2_tcp([1, 2, 3, 4], [5, 6, 7, 8], 1, 18022, &[0u8; 10]);
    frame[12] = 0x86;
    frame[13] = 0xdd;
    assert!(extract_tcp_payload(&frame).is_none());
}

#[test]
fn extract_tcp_payload_rejects_non_tcp() {
    let mut frame = build_l2_tcp([1, 2, 3, 4], [5, 6, 7, 8], 1, 18022, &[0u8; 10]);
    frame[14 + 9] = 17;
    assert!(extract_tcp_payload(&frame).is_none());
}

#[test]
fn extract_tcp_payload_rejects_short_frame() {
    assert!(extract_tcp_payload(&[0u8; 20]).is_none());
}

#[test]
fn listen18022_dedup_dedups_within_window() {
    let mut d = Dedup::new();
    let key = 0xdead_beef;
    assert!(!d.seen(key, 1000));
    assert!(d.seen(key, 1100));
    assert!(d.seen(key, 1200));
}

#[test]
fn listen18022_dedup_expires_after_window() {
    let mut d = Dedup::new();
    let key = 0xabc;
    assert!(!d.seen(key, 1000));
    assert!(!d.seen(key, 1201));
}

#[test]
fn dedup_key_distinguishes_inputs() {
    let p1 = wire_frame(708, b"a");
    let p2 = wire_frame(708, b"b");
    let k_a = dedup_key([1, 2, 3, 4], 5000, &p1);
    assert_ne!(k_a, dedup_key([1, 2, 3, 5], 5000, &p1));
    assert_ne!(k_a, dedup_key([1, 2, 3, 4], 5001, &p1));
    assert_ne!(k_a, dedup_key([1, 2, 3, 4], 5000, &p2));
    assert_eq!(k_a, dedup_key([1, 2, 3, 4], 5000, &p1));
}

#[test]
fn listen18022_fnv1a_known_vector() {
    assert_eq!(fnv1a_64(b""), 0xcbf2_9ce4_8422_2325);
    assert_eq!(fnv1a_64(b"a"), 0xaf63_dc4c_8601_ec8c);
}

/// A clock that shows what it is set to.
struct FakeClock(Rc<Cell<u64>>);
impl Clock for FakeClock {
    fn now_ms(&self) -> u64 {
        self.0.get()
    }
}

/// Picks one request number.
struct Only(i64);
impl FrameFilter for Only {
    fn picks(&self, _f: DetectedView) -> bool {
        unreachable!()
    }

    fn pass(&self, f: &DetectedFrame) -> bool {
        f.req == self.0
    }
}

type TestListener = Listener<MonotonicClock, Only>;

fn listener() -> TestListener {
    Listener::new(vec!["eth0".into()])
}

fn next<C>(sub: &Subscription, l: &mut Listener<C, Only>) -> Option<DetectedFrame> {
    match sub.try_recv(l) {
        Received::Frame(f) => Some(f),
        _ => None,
    }
}

#[test]
fn dispatch_for_test_drives_on_detect() {
    let mut l = listener();
    let f = l
        .dispatch_for_test(
            [1, 2, 3, 4],
            [5, 6, 7, 8],
            500,
            18022,
            &wire_frame(708, b"x"),
        )
        .unwrap();
    assert_eq!(f.req, 708);
    assert_eq!(f.src_ip, [1, 2, 3, 4]);
    assert_eq!(f.dst_port, 18022);
}

#[test]
fn dispatch_for_test_silent_drops_non_wire() {
    let mut l = listener();
    assert!(l
        .dispatch_for_test([1, 2, 3, 4], [5, 6, 7, 8], 1, 18022, &[0xab; 3])
        .is_none());
}

#[test]
fn subscribe_delivers_filtered_frames() {
    let mut l = listener();
    let sub = l.subscribe(Some(Only(708)));

    l.dispatch_for_test([1, 2, 3, 4], [5, 6, 7, 8], 1, 18022, &wire_frame(704, b"a"));
    l.dispatch_for_test([1, 2, 3, 4], [5, 6, 7, 8], 1, 18022, &wire_frame(708, b"b"));

    let got = next(&sub, &mut l).unwrap();
    assert_eq!(got.req, 708);
    assert_eq!(got.body, b"b");
    assert!(next(&sub, &mut l).is_none());
}

#[test]
fn subscribe_none_filter_passes_all() {
    let mut l = listener();
    let sub = l.subscribe(None);
    l.dispatch_for_test([1, 2, 3, 4], [5, 6, 7, 8], 1, 18022, &wire_frame(704, b"a"));
    assert_eq!(next(&sub, &mut l).unwrap().req, 704);
}

#[test]
fn subscribe_buffered_8_then_silent_drop() {
    let mut l = listener();
    let sub = l.subscribe(None);
    for i in 0..10u32 {
        l.dispatch_for_test(
            [1, 2, 3, 4],
            [5, 6, 7, 8],
            1,
            18022,
            &wire_frame(700 + i, b"x"),
        );
    }
    let mut n = 0;
    while let Some(f) = next(&sub, &mut l) {
        assert_eq!(f.req, 700 + n);
        n += 1;
    }
    assert_eq!(n, 8, "eight wait, the rest is dropped");
}

#[test]
fn subscribe_cancel_removes_and_is_idempotent() {
    let mut l = listener();
    let sub = l.subscribe(None);
    sub.cancel(&mut l);
    l.dispatch_for_test([1, 2, 3, 4], [5, 6, 7, 8], 1, 18022, &wire_frame(708, b"x"));
    assert!(matches!(sub.try_recv(&mut l), Received::Disconnected));
    sub.cancel(&mut l);
    sub.cancel(&mut l);
}

#[test]
fn what_waits_survives_a_cancel_but_not_the_end() {
    let mut l = listener();
    let first = l.subscribe(None);
    let second = l.subscribe(None);
    l.dispatch_for_test([1, 2, 3, 4], [5, 6, 7, 8], 1, 18022, &wire_frame(708, b"x"));
    first.cancel(&mut l);
    assert_eq!(next(&first, &mut l).unwrap().req, 708);
    assert!(matches!(first.try_recv(&mut l), Received::Disconnected));
    assert_eq!(next(&second, &mut l).unwrap().req, 708);
    assert!(matches!(second.try_recv(&mut l), Received::Empty));
    let again = Subscription { id: second.id };
    second.close(&mut l);
    assert!(matches!(again.try_recv(&mut l), Received::Disconnected));
}

#[test]
fn dispatch_dedup_skips_duplicate() {
    let clock = Rc::new(Cell::new(1000));
    let mut l = Listener::<MonotonicClock, Only>::new(vec!["eth0".into(), "eth1".into()])
        .with_clock(FakeClock(clock.clone()));
    let sub = l.subscribe(None);
    let payload = wire_frame(708, b"x");
    l.dispatch_for_test([1, 2, 3, 4], [5, 6, 7, 8], 5000, 18022, &payload);
    l.dispatch_for_test([1, 2, 3, 4], [5, 6, 7, 8], 5000, 18022, &payload);
    assert_eq!(next(&sub, &mut l).unwrap().req, 708);
    assert!(next(&sub, &mut l).is_none());
    clock.set(1500);
    l.dispatch_for_test([1, 2, 3, 4], [5, 6, 7, 8], 5000, 18022, &payload);
    assert_eq!(next(&sub, &mut l).unwrap().req, 708);
}

#[test]
fn run_rejects_empty_slaves_or_unsupported() {
    let l: TestListener = Listener::new(vec![]);
    assert!(matches!(l.run(true), Err(ListenerError::NoSlaves)));
    assert!(matches!(l.run(false), Err(ListenerError::NoSlaves)));
}

#[test]
fn listen18022_run_non_linux_returns_unsupported() {
    let l = listener();
    assert!(matches!(l.run(false), Err(ListenerError::Unsupported)));
    assert!(l.run(true).is_ok());
}

#[test]
fn messages_of_tcp_listener() {
    assert_eq!(
        ListenerError::NoSlaves.message(),
        "listen18022: Slaves required"
    );
    assert_eq!(
        ListenerError::Slave(
            "eth1".into(),
            FfiError::Syscall {
                stage: "recvfrom",
                errno: 9
            }
        )
        .message(),
        "slave eth1: recvfrom: errno 9"
    );
    let l: TestListener = Listener::new(vec!["a".into(), "b".into()]);
    assert_eq!(
        l.started_line("a", 12),
        "listen18022: started on a (ifindex=12, PROMISC, BPF active, dedup=true)"
    );
    assert_eq!(
        TestListener::no_timeout_line("a", &FfiError::Unsupported),
        "listen18022: SO_RCVTIMEO set failed on a: PF_PACKET only supported on Linux (continuing)"
    );
}

#[test]
fn only_the_clock_decides_which_frame_is_a_copy() {
    for (later, taken) in [(1000, false), (1200, false), (1201, true)] {
        let t = Rc::new(Cell::new(1000));
        let mut l = Listener::<MonotonicClock, Only>::new(vec!["eth0".into(), "eth1".into()])
            .with_clock(FakeClock(t.clone()));
        let p = wire_frame(704, b"x");
        let (a, b) = ([1, 2, 3, 4], [5, 6, 7, 8]);
        assert!(l.dispatch_for_test(a, b, 5000, 18022, &p).is_some());
        t.set(later);
        let r = l.dispatch_with_dedup(a, b, 5000, 18022, &p);
        assert_eq!(r.is_some(), taken, "{later}");
    }
}
