//! Frames on UDP port 6672.

use dooraccess_rs::ffi::FfiError;
use dooraccess_rs::listen6672::{
    build_number_query_response, classify, dedup_key, extract_udp_payload, fnv1a_64, parse_frame,
    Callbacks, Clock, Dedup, EventKind, Listener, ListenerError, MonotonicClock, ParseError,
    FRAME_SIZE,
};
use std::cell::Cell;
use std::rc::Rc;

fn ring_frame(subtype: u8) -> [u8; FRAME_SIZE] {
    let mut p = [0u8; FRAME_SIZE];
    p[0] = 0x00;
    p[1..5].copy_from_slice(&[0x06, 0x02, 0x00, 0x00]);
    p[5..9].copy_from_slice(&[0x06, 0x02, 0x11, 0x03]);
    p[13] = 0x01;
    p[17] = 0x00;
    p[18] = 0x40;
    p[19] = subtype;
    p[20] = 0xb6;
    p
}

fn keepalive_frame() -> [u8; FRAME_SIZE] {
    let mut p = ring_frame(0x00);
    p[20] = 0x00;
    p
}

fn numquery_frame() -> [u8; FRAME_SIZE] {
    let mut p = [0u8; FRAME_SIZE];
    p[0] = 0x00;
    p[1..5].copy_from_slice(&[0x06, 0x02, 0x00, 0x00]);
    p[17] = 0x00;
    p[18] = 0x40;
    p[19] = 0x10;
    p[20] = 0x00;
    p
}

fn numresp_frame() -> [u8; FRAME_SIZE] {
    let mut p = ring_frame(0x94);
    p[0] = 0x01;
    p
}

#[test]
fn parse_frame_rejects_wrong_size() {
    assert_eq!(parse_frame(&[0u8; 20]), Err(ParseError::FrameSize(20)));
    assert_eq!(parse_frame(&[0u8; 22]), Err(ParseError::FrameSize(22)));
}

#[test]
fn listen6672_parse_frame_rejects_bad_magic() {
    let mut p = ring_frame(0x94);
    p[17] = 0x01;
    assert_eq!(parse_frame(&p), Err(ParseError::FrameMagic(0x01, 0x40)));
}

#[test]
fn parse_frame_extracts_fields() {
    let p = ring_frame(0x94);
    let f = parse_frame(&p).unwrap();
    assert_eq!(f.flag, 0x00);
    assert_eq!(f.target_bcd, [0x06, 0x02, 0x00, 0x00]);
    assert_eq!(f.self_or_ip, [0x06, 0x02, 0x11, 0x03]);
    assert_eq!(f.event_flag, 0x0000_0001);
    assert_eq!(f.magic, [0x00, 0x40]);
    assert_eq!(f.subtype, 0x94);
    assert_eq!(f.event_id, 0xb6);
    assert_eq!(&f.raw[..], &p[..]);
}

#[test]
fn classify_ring_multivalue() {
    for st in [0x8c, 0x94, 0x95] {
        let f = parse_frame(&ring_frame(st)).unwrap();
        assert_eq!(
            classify(&f),
            EventKind::Ring,
            "subtype 0x{st:02x} must be Ring"
        );
    }
}

#[test]
fn classify_elevator_key() {
    let f = parse_frame(&ring_frame(0x90)).unwrap();
    assert_eq!(classify(&f), EventKind::ElevatorKey);
}

#[test]
fn classify_keepalive() {
    let f = parse_frame(&keepalive_frame()).unwrap();
    assert_eq!(classify(&f), EventKind::KeepAlive);
}

#[test]
fn classify_number_query_and_response() {
    let q = parse_frame(&numquery_frame()).unwrap();
    assert_eq!(classify(&q), EventKind::NumberQuery);
    let r = parse_frame(&numresp_frame()).unwrap();
    assert_eq!(classify(&r), EventKind::NumberResponse);
}

#[test]
fn classify_unknown_subtype() {
    let f = parse_frame(&ring_frame(0x77)).unwrap();
    assert_eq!(classify(&f), EventKind::Unknown);
}

/// An untagged Ethernet frame with a UDP payload.
fn build_l2_udp(src_ip: [u8; 4], src_port: u16, dst_port: u16, payload: &[u8]) -> Vec<u8> {
    let mut frame = Vec::new();
    frame.extend_from_slice(&[0xff; 6]);
    frame.extend_from_slice(&[0x11; 6]);
    frame.extend_from_slice(&0x0800u16.to_be_bytes());
    let udp_len = 8 + payload.len();
    let total_len = 20 + udp_len;
    let mut ip = vec![0x45, 0x00];
    ip.extend_from_slice(&(total_len as u16).to_be_bytes());
    ip.extend_from_slice(&[0x00, 0x00, 0x00, 0x00]);
    ip.push(0x40);
    ip.push(17);
    ip.extend_from_slice(&[0x00, 0x00]);
    ip.extend_from_slice(&src_ip);
    ip.extend_from_slice(&[172, 16, 106, 202]);
    assert_eq!(ip.len(), 20);
    frame.extend_from_slice(&ip);
    frame.extend_from_slice(&src_port.to_be_bytes());
    frame.extend_from_slice(&dst_port.to_be_bytes());
    frame.extend_from_slice(&(udp_len as u16).to_be_bytes());
    frame.extend_from_slice(&[0x00, 0x00]);
    frame.extend_from_slice(payload);
    frame
}

#[test]
fn extract_udp_payload_roundtrip() {
    let payload = ring_frame(0x94);
    let frame = build_l2_udp([172, 16, 106, 201], 5000, 6672, &payload);
    let (got, src_ip, src_port) = extract_udp_payload(&frame).unwrap();
    assert_eq!(got, &payload[..]);
    assert_eq!(src_ip, [172, 16, 106, 201]);
    assert_eq!(src_port, 5000);
}

#[test]
fn extract_udp_payload_rejects_non_ipv4() {
    let mut frame = build_l2_udp([1, 2, 3, 4], 1, 6672, &[0u8; 21]);
    frame[12] = 0x86;
    frame[13] = 0xdd;
    assert!(extract_udp_payload(&frame).is_none());
}

#[test]
fn extract_udp_payload_rejects_non_udp() {
    let mut frame = build_l2_udp([1, 2, 3, 4], 1, 6672, &[0u8; 21]);
    frame[14 + 9] = 6;
    assert!(extract_udp_payload(&frame).is_none());
}

#[test]
fn extract_udp_payload_rejects_short_frame() {
    assert!(extract_udp_payload(&[0u8; 10]).is_none());
}

#[test]
fn extract_udp_payload_keeps_to_the_length_given() {
    let mut frame = build_l2_udp([1, 2, 3, 4], 1, 6672, &[7u8; 21]);
    frame.push(9);
    let (got, _, _) = extract_udp_payload(&frame).unwrap();
    assert_eq!(got, vec![7u8; 21]);
    let at = 14 + 20 + 5;
    frame[at] = 200;
    assert!(extract_udp_payload(&frame).is_none());
    frame[at] = 7;
    assert!(extract_udp_payload(&frame).is_none());
}

#[test]
fn build_number_query_response_layout() {
    let req = parse_frame(&numquery_frame()).unwrap();
    let resp = build_number_query_response(&req, [172, 16, 106, 202]);
    assert_eq!(resp[0], 0x01);
    assert_eq!(&resp[1..5], &req.target_bcd);
    assert_eq!(&resp[5..9], &[172, 16, 106, 202]);
    assert_eq!(&resp[9..13], &[0, 0, 0, 0]);
    assert_eq!(
        u32::from_le_bytes([resp[13], resp[14], resp[15], resp[16]]),
        req.event_flag
    );
    assert_eq!(resp[17], 0x00);
    assert_eq!(resp[18], 0x40);
    assert_eq!(resp[19], req.subtype);
    assert_eq!(resp[20], req.event_id);
}

#[test]
fn an_answer_reads_back_as_a_response() {
    let mut query = parse_frame(&numquery_frame()).unwrap();
    query.event_flag = 0x8765_4321;
    let back = parse_frame(&build_number_query_response(&query, [10, 0, 0, 9])).unwrap();
    assert_eq!(classify(&back), EventKind::NumberResponse);
    assert_eq!(back.target_bcd, query.target_bcd);
    assert_eq!(back.self_or_ip, [10, 0, 0, 9]);
    assert_eq!(back.event_flag, 0x8765_4321);
}

#[test]
fn listen6672_dedup_dedups_within_window() {
    let mut d = Dedup::new();
    let key = 0xdead_beef;
    assert!(!d.seen(key, 1000));
    assert!(d.seen(key, 1100));
    assert!(d.seen(key, 1200));
}

#[test]
fn listen6672_dedup_expires_after_window() {
    let mut d = Dedup::new();
    let key = 0xabc;
    assert!(!d.seen(key, 1000));
    assert!(!d.seen(key, 1201));
}

#[test]
fn dedup_hit_does_not_refresh_ts() {
    let mut d = Dedup::new();
    let key = 0x55;
    assert!(!d.seen(key, 0));
    assert!(d.seen(key, 150));
    assert!(!d.seen(key, 201));
}

#[test]
fn dedup_forgets_the_oldest_of_many() {
    let mut d = Dedup::default();
    for k in 0..64u64 {
        assert!(!d.seen(k, 1000));
    }
    assert!(d.seen(0, 1000));
    assert!(!d.seen(64, 1000));
    assert!(!d.seen(0, 1000));
    assert!(d.seen(2, 1000));
}

#[test]
fn dedup_key_distinguishes_src_and_payload() {
    let p1 = ring_frame(0x94);
    let p2 = ring_frame(0x95);
    let k_a = dedup_key([1, 2, 3, 4], 5000, &p1);
    let k_b = dedup_key([1, 2, 3, 5], 5000, &p1);
    let k_c = dedup_key([1, 2, 3, 4], 5001, &p1);
    let k_d = dedup_key([1, 2, 3, 4], 5000, &p2);
    assert_ne!(k_a, k_b);
    assert_ne!(k_a, k_c);
    assert_ne!(k_a, k_d);
    assert_eq!(k_a, dedup_key([1, 2, 3, 4], 5000, &p1));
}

#[test]
fn dedup_key_exact_value() {
    assert_eq!(
        dedup_key([1, 2, 3, 4], 5, b""),
        0xcbf2_9ce4_8422_2325 ^ 0x0102_0304 ^ (5u64 << 32)
    );
    let mut long = ring_frame(0x94).to_vec();
    let key = dedup_key([1, 2, 3, 4], 5, &long);
    long.push(1);
    assert_eq!(dedup_key([1, 2, 3, 4], 5, &long), key);
}

#[test]
fn listen6672_fnv1a_known_vector() {
    assert_eq!(fnv1a_64(b""), 0xcbf2_9ce4_8422_2325);
    assert_eq!(fnv1a_64(b"a"), 0xaf63_dc4c_8601_ec8c);
}

/// A clock that shows what it is set to.
struct FakeClock(Rc<Cell<u64>>);
impl Clock for FakeClock {
    fn now_ms(&self) -> u64 {
        self.0.get()
    }
}

fn wants_rings() -> Callbacks {
    Callbacks {
        on_ring: true,
        ..Default::default()
    }
}

#[test]
fn dispatch_routes_ring_to_callback() {
    let l = Listener::new(vec!["eth0".into()], wants_rings());
    let mut hits = 0;
    for st in [0x8c, 0x94, 0x95] {
        let d = l.dispatch([1, 2, 3, 4], &ring_frame(st));
        assert_eq!(
            d.log.as_deref(),
            Some("Capture: Ring captured from 1.2.3.4")
        );
        if let Some((EventKind::Ring, f)) = d.event {
            assert!(matches!(f.subtype, 0x8c | 0x94 | 0x95));
            hits += 1;
        }
    }
    assert_eq!(hits, 3);
}

#[test]
fn dispatch_elevator_and_keepalive() {
    let cb = Callbacks {
        on_elevator_key: true,
        ..Default::default()
    };
    let l = Listener::new(vec!["eth0".into()], cb);
    let mut elev = 0;
    for p in [ring_frame(0x90), keepalive_frame()] {
        if let Some((EventKind::ElevatorKey, _)) = l.dispatch([1, 2, 3, 4], &p).event {
            elev += 1;
        }
    }
    assert_eq!(elev, 1);
    assert!(l.dispatch([1, 2, 3, 4], &keepalive_frame()).log.is_none());
}

#[test]
fn dispatch_drops_non_21b() {
    let l = Listener::new(vec!["eth0".into()], Callbacks::default());
    let d = l.dispatch([1, 2, 3, 4], &[0u8; 5]);
    assert!(d.event.is_none());
    assert_eq!(
        d.log.as_deref(),
        Some("listen6672: drop non-21B payload (len=5)")
    );
}

#[test]
fn dispatch_logs_what_it_cannot_use() {
    let all = Callbacks {
        on_ring: true,
        on_elevator_key: true,
        on_number_query: true,
        on_number_response: true,
    };
    let l = Listener::new(vec!["eth0".into()], all);
    let mut bad = ring_frame(0x94);
    bad[17] = 0x0a;
    let d = l.dispatch([1, 2, 3, 4], &bad);
    assert!(d.event.is_none());
    assert_eq!(
        d.log.as_deref(),
        Some("listen6672: parse error: listen6672: byte 17-18 not 00 40: got 0a 40")
    );
    let d = l.dispatch([1, 2, 3, 4], &ring_frame(0x96));
    assert!(d.event.is_none());
    assert_eq!(
        d.log.as_deref(),
        Some("listen6672: unknown frame subtype=0x96")
    );
    let d = l.dispatch([1, 2, 3, 4], &numquery_frame());
    assert!(matches!(d.event, Some((EventKind::NumberQuery, _))));
    assert!(d.log.is_none());
    let d = l.dispatch([1, 2, 3, 4], &numresp_frame());
    assert!(matches!(d.event, Some((EventKind::NumberResponse, _))));
}

#[test]
fn dispatch_with_dedup_skips_duplicate() {
    let clock = Rc::new(Cell::new(1000));
    let mut l = Listener::new(vec!["eth0".into(), "eth1".into()], wants_rings())
        .with_clock(FakeClock(clock.clone()));
    let payload = ring_frame(0x94);
    let mut hits = 0;
    for _ in 0..2 {
        if l.dispatch_with_dedup([1, 2, 3, 4], 5000, &payload)
            .event
            .is_some()
        {
            hits += 1;
        }
    }
    assert_eq!(hits, 1);
    clock.set(1500);
    if l.dispatch_with_dedup([1, 2, 3, 4], 5000, &payload)
        .event
        .is_some()
    {
        hits += 1;
    }
    assert_eq!(hits, 2);
}

#[test]
fn dispatch_with_dedup_single_slave_no_dedup() {
    let mut l = Listener::new(vec!["eth0".into()], wants_rings());
    let payload = ring_frame(0x94);
    let mut hits = 0;
    for _ in 0..2 {
        if l.dispatch_with_dedup([1, 2, 3, 4], 5000, &payload)
            .event
            .is_some()
        {
            hits += 1;
        }
    }
    assert_eq!(hits, 2);
}

#[test]
fn with_dedup_drops_copies_on_one_interface() {
    let mut l = Listener::new(vec!["eth0".into()], wants_rings()).with_dedup(Dedup::new());
    let payload = ring_frame(0x94);
    assert!(l.dispatch_at([1, 2, 3, 4], 5, &payload, 10).event.is_some());
    assert!(l.dispatch_at([1, 2, 3, 4], 5, &payload, 20).event.is_none());
}

#[test]
fn run_rejects_empty_slaves() {
    let l = Listener::new(vec![], Callbacks::default());
    assert!(matches!(l.run(true), Err(ListenerError::NoSlaves)));
    assert!(matches!(l.run(false), Err(ListenerError::NoSlaves)));
}

#[test]
fn listen6672_run_non_linux_returns_unsupported() {
    let l = Listener::new(vec!["eth0".into()], Callbacks::default());
    assert!(matches!(l.run(false), Err(ListenerError::Unsupported)));
    assert!(l.run(true).is_ok());
}

#[test]
fn names_and_messages_of_udp_listener() {
    let names: Vec<&str> = [
        EventKind::Ring,
        EventKind::ElevatorKey,
        EventKind::KeepAlive,
        EventKind::NumberQuery,
        EventKind::NumberResponse,
        EventKind::Unknown,
    ]
    .iter()
    .map(|k| k.as_str())
    .collect();
    assert_eq!(
        names,
        [
            "ring",
            "elevator_key",
            "keep_alive",
            "number_query",
            "number_response",
            "unknown"
        ]
    );
    assert_eq!(
        ParseError::FrameSize(20).message(),
        "listen6672: payload not 21 bytes: got 20 bytes"
    );
    assert_eq!(
        ListenerError::Slave("eth1".into(), FfiError::Unsupported).message(),
        "slave eth1: PF_PACKET only supported on Linux"
    );
    assert!(ListenerError::NoSlaves.message().starts_with("listen6672: Slaves required"));
    let l = Listener::new(vec!["eth0".into()], Callbacks::default());
    assert_eq!(
        l.started_line("eth0", 3),
        "listen6672: started on eth0 (ifindex=3, PROMISC, BPF active, dedup=false)"
    );
    let r = Listener::<MonotonicClock>::slave_failed(Ok(()), "eth0", FfiError::Unsupported);
    let r = Listener::<MonotonicClock>::slave_failed(r, "eth1", FfiError::Unsupported);
    assert!(matches!(r, Err(ListenerError::Slave(name, _)) if name == "eth0"));
}

#[test]
fn the_monotonic_clock_does_not_go_back() {
    let c = MonotonicClock::new();
    let a = c.now_ms();
    assert!(c.now_ms() >= a);
}

#[test]
fn only_the_clock_decides_what_a_copy_is() {
    for (later, taken) in [(1000, false), (1200, false), (1201, true), (1500, true)] {
        let t = Rc::new(Cell::new(1000));
        let mut l = Listener::new(vec!["eth0".into(), "eth1".into()], wants_rings())
            .with_clock(FakeClock(t.clone()));
        let p = ring_frame(0x94);
        assert!(l.dispatch_with_dedup([1, 2, 3, 4], 5000, &p).event.is_some());
        t.set(later);
        let d = l.dispatch_with_dedup([1, 2, 3, 4], 5000, &p);
        assert_eq!(d.event.is_some(), taken, "{later}");
    }
}

#[test]
fn notes_handed_in_are_looked_at() {
    let p = ring_frame(0x94);
    let mut notes = Dedup::new();
    assert!(!notes.seen(dedup_key([1, 2, 3, 4], 5000, &p), 700));
    let mut l = Listener::new(vec!["eth0".into()], wants_rings())
        .with_dedup(notes)
        .with_clock(FakeClock(Rc::new(Cell::new(700))));
    let d = l.dispatch_with_dedup([1, 2, 3, 4], 5000, &p);
    assert!(d.log.is_none() && d.event.is_none());
    assert!(l.dispatch_with_dedup([1, 2, 3, 5], 5000, &p).event.is_some());
    let mut notes = l.dedup.unwrap();
    assert!(notes.seen(dedup_key([1, 2, 3, 5], 5000, &p), 700));
}

#[test]
fn clocks_start_at_zero() {
    assert!(MonotonicClock::default().now_ms() < 10_000);
}
