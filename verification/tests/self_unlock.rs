//! Unlocking by itself when somebody rings.

use dooraccess_rs::codec::{encode_bcd, result};
use dooraccess_rs::config::{Config, Station};
use dooraccess_rs::daemon::DelayStep;
use dooraccess_rs::listen18022::{DetectedFrame, FrameFilter, Listener, MonotonicClock, Received};
use dooraccess_rs::orchestration::{parse_stations_to_ip_map, worker_unavailable_outcome};
use dooraccess_rs::self_unlock::{
    consumer_idle, hangup_step, parse_outdoor_uri, Consumer, ConsumerStep, RingFilter, RingStep,
    RingTimes, SelfUnlockDeps,
};
use dooraccess_rs::unlock::{UnlockOutcome, UNLOCK_TOTAL_CAP_MS};

#[test]
fn debounce_window_derives_from_cap_plus_margin() {
    let mut times = RingTimes::new();
    let old = times.set_debounce_margin_ms_for_test(500);
    assert_eq!(times.debounce_window(), UNLOCK_TOTAL_CAP_MS + 500);
    assert_eq!(times.set_debounce_margin_ms_for_test(old), 500);
    assert_eq!(times.debounce_window(), 12_000);
}

#[test]
fn hangup_delay_is_tunable() {
    let mut times = RingTimes::new();
    let old = times.set_hangup_delay_ms_for_test(30);
    assert_eq!(times.hangup_delay(), 30);
    times.set_hangup_delay_ms_for_test(old);
    assert_eq!(times.hangup_delay(), 2_000);
}

#[test]
fn parse_outdoor_uri_ok_and_err() {
    let (bcd, ip, port) = parse_outdoor_uri("06020000@172.16.106.201:18022")
        .unwrap_or_else(|_| panic!("valid uri should parse"));
    assert_eq!(ip, "172.16.106.201");
    assert_eq!(port, 18022);
    assert_eq!(bcd, encode_bcd("06020000").unwrap_or([0; 4]));
    assert!(parse_outdoor_uri("garbage").is_err());
    assert_eq!(
        parse_outdoor_uri("0602000x@172.16.106.201:18022").unwrap_err(),
        "bcd encode"
    );
}

const INDOOR_URI: &str = "06021103@172.16.106.91:18022";
const INDOOR_IP: [u8; 4] = [172, 16, 106, 91];
const OUTDOOR_URI: &str = "06020000@172.16.106.152:18022";
const OUTDOOR_IP: [u8; 4] = [172, 16, 106, 152];

fn e2e_cfg() -> Config {
    let mut cfg = Config::default();
    cfg.sip = INDOOR_URI.into();
    cfg.stations = vec![Station {
        sip: OUTDOOR_URI.into(),
        rtsp_url: String::new(),
    }];
    cfg
}

fn make_deps(cfg: &Config) -> SelfUnlockDeps {
    SelfUnlockDeps::try_new(cfg, parse_stations_to_ip_map(cfg)).expect("deps construct")
}

fn wire_704_payload() -> Vec<u8> {
    let mut fb = Vec::new();
    fb.extend_from_slice(b"req=704&query=");
    fb.extend_from_slice(&[0x06, 0x02, 0x11, 0x03]);
    let mut f = vec![0x07, 0xb8];
    f.extend_from_slice(&(fb.len() as u16).to_le_bytes());
    f.push(0x00);
    f.push(0x00);
    f.extend_from_slice(&fb);
    f
}

/// A listener with a consumer behind it.
struct Rig {
    deps: SelfUnlockDeps,
    listener: Listener<MonotonicClock, RingFilter>,
    sub: dooraccess_rs::listen18022::Subscription,
    consumer: Consumer,
    window: u64,
    auto_unlock: bool,
}

impl Rig {
    fn new(deps: SelfUnlockDeps, auto_unlock: bool) -> Self {
        let mut listener = Listener::new(vec!["eth0".into()]);
        let sub = listener.subscribe(Some(deps.make_filter()));
        let mut times = RingTimes::new();
        times.set_debounce_margin_ms_for_test(5_000);
        Rig {
            deps,
            listener,
            sub,
            consumer: Consumer::new(),
            window: times.debounce_window(),
            auto_unlock,
        }
    }

    /// Takes a ring and gives what it led to; nothing where it did not come through.
    fn ring(&mut self, src: [u8; 4], dst: [u8; 4], port: u16, now: u64) -> Option<RingStep> {
        self.listener
            .dispatch_for_test(src, dst, port, 18022, &wire_704_payload());
        match self.sub.try_recv(&mut self.listener) {
            Received::Frame(f) => Some(self.consumer.handle_ring(
                &self.deps,
                &f,
                now,
                self.window,
                self.auto_unlock,
            )),
            _ => None,
        }
    }
}

fn triggered(s: &Option<RingStep>) -> bool {
    matches!(s, Some(RingStep::Trigger { .. }))
}

#[test]
fn t5_1_ring_triggers_self_unlock_through_worker() {
    let mut rig = Rig::new(make_deps(&e2e_cfg()), true);
    match rig.ring(OUTDOOR_IP, INDOOR_IP, 50000, 1000) {
        Some(RingStep::Trigger {
            line,
            uri,
            caller_bcd,
            target_ip,
            target_port,
        }) => {
            assert_eq!(
                line,
                format!("[auto_unlock] trigger src={OUTDOOR_URI} (dequeue-triggered=debounce_skips)")
            );
            assert_eq!(uri, OUTDOOR_URI);
            assert_eq!(caller_bcd, encode_bcd("06020000").unwrap());
            assert_eq!(target_ip, "172.16.106.152");
            assert_eq!(target_port, 18022);
        }
        other => panic!("{other:?}"),
    }
    assert_eq!(rig.consumer.triggered_count, 1);
}

#[test]
fn t5_2_debounce_window_triggers_once() {
    let mut rig = Rig::new(make_deps(&e2e_cfg()), true);
    let mut n = 0;
    for i in 0..3 {
        if triggered(&rig.ring(OUTDOOR_IP, INDOOR_IP, 50000, 1000 + 20 * i)) {
            n += 1;
        }
    }
    assert_eq!(n, 1);
    assert_eq!(rig.consumer.dequeue_count, 3);
    assert_eq!(
        rig.consumer.stop_line(),
        "[auto_unlock] self-unlock consumer stopping (dequeue=3 triggered=1)"
    );
    assert!(triggered(&rig.ring(OUTDOOR_IP, INDOOR_IP, 50000, 16_000)));
}

#[test]
fn t5_3_flag_off_skips_and_does_not_write_debounce() {
    let mut rig = Rig::new(make_deps(&e2e_cfg()), false);
    match rig.ring(OUTDOOR_IP, INDOOR_IP, 50000, 1000) {
        Some(RingStep::Skip(l)) => {
            assert_eq!(l, format!("[auto_unlock] flag off, skip src={OUTDOOR_URI}"))
        }
        other => panic!("{other:?}"),
    }
    rig.auto_unlock = true;
    assert!(triggered(&rig.ring(OUTDOOR_IP, INDOOR_IP, 50000, 1100)));
    assert_eq!(rig.consumer.triggered_count, 1);
}

#[test]
fn t5_3_in_flight_unlock_completes_after_flag_off() {
    let mut rig = Rig::new(make_deps(&e2e_cfg()), true);
    assert!(triggered(&rig.ring(OUTDOOR_IP, INDOOR_IP, 50000, 1000)));
    // Turning the flag off afterwards does not touch what is under way.
    rig.auto_unlock = false;
    let o = UnlockOutcome {
        result: result::OK,
        retries: 0,
        terminated_by_bye: false,
        wire_kind: None,
    };
    let after = rig
        .deps
        .after_unlock(o, OUTDOOR_URI, [0; 4], "1.2.3.4", 1, 5, false);
    assert!(after.push.is_some());
}

#[test]
fn t5_4_single_self_unlock_without_hacs_callback() {
    let mut rig = Rig::new(make_deps(&e2e_cfg()), true);
    assert!(triggered(&rig.ring(OUTDOOR_IP, INDOOR_IP, 50000, 1000)));
    assert!(matches!(
        rig.sub.try_recv(&mut rig.listener),
        Received::Empty
    ));
    assert_eq!(rig.consumer.triggered_count, 1);
}

fn opened() -> UnlockOutcome {
    UnlockOutcome {
        result: result::OK,
        retries: 0,
        terminated_by_bye: false,
        wire_kind: None,
    }
}

#[test]
fn t5_5_auto_hangup_sends_stop_frame_byte_exact() {
    let deps = make_deps(&e2e_cfg());
    let outdoor_bcd = encode_bcd("06020000").unwrap();
    let monitor_bcd = encode_bcd("06021103").unwrap();
    let after = deps.after_unlock(
        opened(),
        OUTDOOR_URI,
        outdoor_bcd,
        "172.16.106.152",
        18022,
        1300,
        true,
    );
    assert_eq!(after.line, "[auto_unlock] result=0 retries=0 t_ms=1300");
    let h = after.hangup.expect("the call is ended");
    assert_eq!(h.outdoor_ip, "172.16.106.152");
    assert_eq!(h.outdoor_port, 18022);
    assert_eq!(h.outdoor_bcd, outdoor_bcd);
    assert_eq!(h.monitor_bcd, monitor_bcd);
    let off = deps.after_unlock(opened(), OUTDOOR_URI, outdoor_bcd, "x", 1, 0, false);
    assert!(off.hangup.is_none());
}

#[test]
fn t5_5_auto_hangup_abandoned_on_shutdown_during_delay() {
    assert_eq!(hangup_step(false, 20, 500), DelayStep::Wait(20));
    assert_eq!(hangup_step(true, 20, 500), DelayStep::Abandon);
    assert_eq!(hangup_step(true, 700, 500), DelayStep::Abandon);
    assert_eq!(hangup_step(false, 500, 500), DelayStep::Act);
}

#[test]
fn t5_6_dst_and_src_tightening_no_trigger() {
    let mut rig = Rig::new(make_deps(&e2e_cfg()), true);
    assert!(rig
        .ring(OUTDOOR_IP, [172, 16, 106, 92], 50000, 1000)
        .is_none());
    assert!(rig
        .ring([172, 16, 106, 199], INDOOR_IP, 50000, 1000)
        .is_none());
    assert!(triggered(&rig.ring(OUTDOOR_IP, INDOOR_IP, 50000, 1000)));
    let f = rig.deps.make_filter();
    let mut frame = DetectedFrame {
        req: 708,
        body: vec![],
        src_ip: OUTDOOR_IP,
        dst_ip: INDOOR_IP,
        src_port: 1,
        dst_port: 2,
    };
    assert!(!f.pass(&frame));
    frame.req = 704;
    assert!(f.pass(&frame));
}

#[test]
fn t5_7_concurrent_slaves_debounce_single_unlock() {
    // Two rings from different ports are no copies of each other; one attempt is made.
    let mut rig = Rig::new(make_deps(&e2e_cfg()), true);
    rig.listener = Listener::new(vec!["eth0".into(), "eth1".into()]);
    rig.sub = rig.listener.subscribe(Some(rig.deps.make_filter()));
    let a = rig.ring(OUTDOOR_IP, INDOOR_IP, 50001, 1000);
    let b = rig.ring(OUTDOOR_IP, INDOOR_IP, 50002, 1000);
    assert!(triggered(&a));
    match b {
        Some(RingStep::Skip(l)) => {
            assert_eq!(l, format!("[auto_unlock] debounce skip src={OUTDOOR_URI}"))
        }
        other => panic!("{other:?}"),
    }
}

#[test]
fn t5_8_success_pushes_unlock_event() {
    let deps = make_deps(&e2e_cfg());
    let after = deps.after_unlock(opened(), OUTDOOR_URI, [0; 4], "x", 1, 0, false);
    let p = after.push.expect("a success is reported");
    assert_eq!(p.event, "unlock");
    assert_eq!(
        p.fields,
        vec![
            ("from".to_string(), OUTDOOR_URI.to_string()),
            ("to".to_string(), INDOOR_URI.to_string()),
            ("result".to_string(), "0".to_string()),
        ]
    );
}

#[test]
fn t5_8_failure_does_not_push() {
    let deps = make_deps(&e2e_cfg());
    let after = deps.after_unlock(
        worker_unavailable_outcome(),
        OUTDOOR_URI,
        [0; 4],
        "x",
        1,
        0,
        true,
    );
    assert!(after.push.is_none());
    assert!(after.hangup.is_none());
}

#[test]
fn t5_9_per_ring_parse_failure_isolated() {
    let mut cfg = e2e_cfg();
    cfg.stations = vec![
        Station {
            sip: "garbage-no-at".into(),
            rtsp_url: String::new(),
        },
        Station {
            sip: "06020001@172.16.106.153:18022".into(),
            rtsp_url: String::new(),
        },
    ];
    let mut outdoor_by_ip = parse_stations_to_ip_map(&cfg);
    outdoor_by_ip.insert("172.16.106.152".into(), "garbage-no-at".into());
    let deps = SelfUnlockDeps::try_new(&cfg, outdoor_by_ip).expect("deps");
    let mut rig = Rig::new(deps, true);
    match rig.ring([172, 16, 106, 152], INDOOR_IP, 50000, 1000) {
        Some(RingStep::Skip(l)) => assert_eq!(
            l,
            "[auto_unlock] parse outdoor uri \"garbage-no-at\" failed: uri parse (skip)"
        ),
        other => panic!("{other:?}"),
    }
    assert!(triggered(&rig.ring(
        [172, 16, 106, 153],
        INDOOR_IP,
        50001,
        1050
    )));
    assert_eq!(rig.consumer.triggered_count, 1);
    // The failed one counts for the window all the same.
    match rig.ring([172, 16, 106, 152], INDOOR_IP, 50000, 1100) {
        Some(RingStep::Skip(l)) => assert!(l.contains("debounce skip")),
        other => panic!("{other:?}"),
    }
}

#[test]
fn t5_10_shutdown_does_not_deadlock_consumer() {
    assert_eq!(consumer_idle(false, false), ConsumerStep::Wait);
    assert_eq!(consumer_idle(false, true), ConsumerStep::Stop);
    assert_eq!(consumer_idle(true, false), ConsumerStep::Stop);
}

#[test]
fn a_useless_indoor_uri_turns_it_off() {
    let mut cfg = e2e_cfg();
    cfg.sip = "nonsense".into();
    let e = SelfUnlockDeps::try_new(&cfg, parse_stations_to_ip_map(&cfg)).unwrap_err();
    assert!(e.contains("(callee) failed"), "{e}");
    cfg.sip = "0602110x@172.16.106.91:18022".into();
    let e = SelfUnlockDeps::try_new(&cfg, parse_stations_to_ip_map(&cfg)).unwrap_err();
    assert!(e.contains("(callee bcd) failed"), "{e}");
}

#[test]
fn a_ring_of_a_stranger_is_ignored() {
    let deps = make_deps(&e2e_cfg());
    let mut c = Consumer::new();
    let frame = DetectedFrame {
        req: 704,
        body: vec![],
        src_ip: [9, 9, 9, 9],
        dst_ip: INDOOR_IP,
        src_port: 1,
        dst_port: 2,
    };
    assert!(matches!(
        c.handle_ring(&deps, &frame, 0, 10, true),
        RingStep::Ignore
    ));
}
