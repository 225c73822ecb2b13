//! How the parts are put together.

use dooraccess_rs::automation_state::{Persister, State};
use dooraccess_rs::config::{Config, Station};
use dooraccess_rs::listen18022::DetectedFrame;
use dooraccess_rs::listen6672::parse_frame;
use dooraccess_rs::orchestration::{
    build_listen18022, build_number_query_callback, ipv4_str, load_automation_flags,
    load_state_file, parse_ipv4, parse_stations_to_ip_map, NumberAnswer, QueryReply,
};

fn station(sip: &str) -> Station {
    Station {
        sip: sip.into(),
        rtsp_url: String::new(),
    }
}

fn cfg() -> Config {
    let mut cfg = Config::default();
    cfg.sip = "06021103@172.16.106.91:18022".into();
    cfg.iface = "br".into();
    cfg.automation.auto_unlock = true;
    cfg.stations = vec![
        station("06020000@172.16.106.152:18022"),
        station("broken"),
        station("06020007@172.16.106.153:18022"),
        station("06020009@172.16.106.153:18022"),
    ];
    cfg
}

#[test]
fn flags_come_from_the_state_file_first() {
    let good = Ok(Some(b"auto_unlock=false\nauto_hangup=true\n".to_vec()));
    let f = load_automation_flags("/s", &good, &cfg(), true);
    assert_eq!(
        (f.auto_unlock, f.auto_hangup, f.source),
        (false, true, "state")
    );
    assert!(f.log.is_empty());
    assert_eq!(
        load_state_file("/s", &good),
        Ok(Some(State {
            auto_unlock: false,
            auto_hangup: true
        }))
    );

    let f = load_automation_flags("/s", &Ok(None), &cfg(), false);
    assert_eq!(
        (f.auto_unlock, f.auto_hangup, f.source),
        (true, false, "config")
    );
    assert!(f.log.is_empty());

    let f = load_automation_flags("/s", &Ok(Some(b"half".to_vec())), &cfg(), true);
    assert_eq!(f.source, "config");
    assert_eq!(f.log.len(), 2);
    assert_eq!(
        f.log[0],
        "automation.state load failed, falling back to config defaults: state file present but \
         unparseable"
    );
    assert!(f.log[1].contains("set but ignored"));

    assert_eq!(
        load_state_file("/s", &Err("denied".into())).unwrap_err(),
        "read /s: denied"
    );
}

#[test]
fn stations_by_address() {
    let m = parse_stations_to_ip_map(&cfg());
    assert_eq!(m.len(), 2);
    assert_eq!(
        m.get("172.16.106.153").unwrap(),
        "06020009@172.16.106.153:18022"
    );
    assert!(m.get("172.16.106.154").is_none());
}

#[test]
fn addresses_read_back() {
    for ip in [[0, 0, 0, 0], [255, 10, 100, 9], [1, 20, 99, 200]] {
        assert_eq!(parse_ipv4(&ipv4_str(ip)), Some(ip));
    }
    assert_eq!(ipv4_str([172, 16, 106, 91]), "172.16.106.91");
    for bad in ["", "1.2.3", "1.2.3.4.5", "1.2.3.256", "01.2.3.4", "a.b.c.d"] {
        assert_eq!(parse_ipv4(bad), None, "{bad}");
    }
}

fn frame(req: i64, src: [u8; 4], dst: [u8; 4]) -> DetectedFrame {
    DetectedFrame {
        req,
        body: vec![],
        src_ip: src,
        dst_ip: dst,
        src_port: 1,
        dst_port: 18022,
    }
}

#[test]
fn rings_are_reported() {
    assert!(build_listen18022(&cfg(), &[], None).is_none());
    let w = build_listen18022(&cfg(), &["eth0".into()], Some([172, 16, 106, 202])).unwrap();
    let out = [172, 16, 106, 152];
    let r = w.on_detect(&frame(704, out, [172, 16, 106, 91]));
    assert_eq!(
        r.line,
        "listen18022: detected req=704 outdoor→indoor 172.16.106.152 → 172.16.106.91 (invite-query)"
    );
    let p = r.push.unwrap();
    assert_eq!(p.event, "ring");
    assert_eq!(
        p.fields,
        vec![
            (
                "from".to_string(),
                "06020000@172.16.106.152:18022".to_string()
            ),
            ("to".to_string(), "06021103@172.16.106.91:18022".to_string()),
            ("result".to_string(), "0".to_string()),
        ]
    );
    let p = w.on_detect(&frame(704, out, [172, 16, 106, 92])).push.unwrap();
    assert_eq!(p.fields[1].1, "06021103@172.16.106.92:18022");

    let r = w.on_detect(&frame(704, [9, 9, 9, 9], [172, 16, 106, 91]));
    assert!(r.push.is_none());
    assert_eq!(
        r.dropped.unwrap(),
        "ring: src=9.9.9.9 not in cfg.Stations (dropped, neighbor or unconfigured station)"
    );
    let r = w.on_detect(&frame(708, out, [172, 16, 106, 202]));
    assert!(r.push.is_none() && r.dropped.is_none());
    assert!(r.line.contains("outdoor→daemon"), "{}", r.line);
}

#[test]
fn number_queries_for_the_own_number_are_answered() {
    let mut p = [0u8; 21];
    p[1..5].copy_from_slice(&[0x06, 0x02, 0x11, 0x03]);
    p[18] = 0x40;
    let mine = parse_frame(&p).unwrap();
    p[4] = 0x04;
    let other = parse_frame(&p).unwrap();

    let a = build_number_query_callback(&cfg(), Some([10, 0, 0, 1])).unwrap();
    match a.answer(&mine) {
        QueryReply::Answer(b) => {
            assert_eq!(b[0], 1);
            assert_eq!(&b[5..9], &[10, 0, 0, 1]);
        }
        other => panic!("{other:?}"),
    }
    assert!(matches!(a.answer(&other), QueryReply::NotMine));

    let a = build_number_query_callback(&cfg(), None).unwrap();
    match a.answer(&mine) {
        QueryReply::NoAddress(l) => assert_eq!(
            l,
            "number_query: cannot determine local IPv4 (iface=\"br\")"
        ),
        other => panic!("{other:?}"),
    }
    assert_eq!(
        NumberAnswer::sent([1, 2, 3, 4], [5, 6, 7, 8], None),
        "number_query: replied to 1.2.3.4 with our IP 5.6.7.8"
    );
    assert_eq!(
        NumberAnswer::sent([1, 2, 3, 4], [5, 6, 7, 8], Some("down")),
        "number_query: send: down"
    );
    let mut bad = cfg();
    bad.sip = "x".into();
    assert!(build_number_query_callback(&bad, None).is_err());
}

#[test]
fn saved_flags_are_those_of_the_next_start() {
    let st = State {
        auto_unlock: false,
        auto_hangup: true,
    };
    let saved = Persister::new().persist(st).unwrap();
    let f = load_automation_flags("/s", &Ok(Some(saved)), &cfg(), true);
    assert_eq!(
        (f.auto_unlock, f.auto_hangup, f.source),
        (false, true, "state")
    );
    assert!(f.log.is_empty());
}
