//! The daemon's description of itself.

use dooraccess_rs::config::{Config, Hass, Listen, Station, Video};
use dooraccess_rs::info::{build, render_json};

fn sample_cfg() -> Config {
    let mut cfg = Config::default();
    cfg.sip = "12345678@10.0.0.20:18022".into();
    cfg.listen = Listen {
        addr: "0.0.0.0".into(),
        port: 8080,
    };
    cfg.stations = vec![Station {
        sip: "12340000@10.0.0.10:18022".into(),
        rtsp_url: String::new(),
    }];
    cfg.hass = Hass {
        ipaddr: "10.0.0.66".into(),
        port: 8123,
        api: "/api/x".into(),
        token: "should-not-leak".into(),
    };
    cfg.video = Video {
        forward: false,
        format: String::new(),
        cache_path: String::new(),
    };
    cfg
}

#[test]
fn build_basic_fields() {
    let sd = build(Some(&sample_cfg()), "v0.2.0", 42, None);
    assert_eq!(sd.daemon, "dooraccess-go");
    assert_eq!(sd.brand, "anjubao");
    assert_eq!(sd.version, "v0.2.0");
    assert_eq!(sd.monitor, "12345678@10.0.0.20:18022");
    assert_eq!(sd.stations.len(), 1);
    assert_eq!(sd.stations[0].sip, "12340000@10.0.0.10:18022");
    assert!(sd.hass_reachable.is_none());
    assert!(sd.pid > 0);
}

#[test]
fn render_json_fields_subset() {
    let sd = build(Some(&sample_cfg()), "v0.2.0-test", 42, None);
    let raw = render_json(&sd);
    let rs = String::from_utf8(raw).unwrap();

    for want in [
        r#""daemon":"dooraccess-go""#,
        r#""brand":"anjubao""#,
        r#""version":"v0.2.0-test""#,
        r#""monitor":"12345678@10.0.0.20:18022""#,
        "\"outdoor_stations\":",
    ] {
        assert!(rs.contains(want), "missing {want}\nfull: {rs}");
    }

    for banned in [
        "should-not-leak",
        "hass_token",
        "token_source",
        "iface_ip",
        "hass_endpoint",
        "hass_facing",
    ] {
        assert!(!rs.contains(banned), "leaked {banned}\nfull: {rs}");
    }
    assert!(rs.ends_with('\n'));
}

#[test]
fn render_json_empty_stations() {
    let sd = build(None, "test", 42, None);
    let raw = render_json(&sd);
    let rs = String::from_utf8(raw).unwrap();
    assert!(rs.contains(r#""outdoor_stations":[]"#));
}

#[test]
fn the_version_has_a_default() {
    assert_eq!(build(None, "", 42, None).version, "dev");
    let mut cfg = sample_cfg();
    assert_eq!(
        build(Some(&cfg), "", 42, Some(true)).hass_reachable,
        Some(true)
    );
    cfg.hass.ipaddr = String::new();
    assert_eq!(build(Some(&cfg), "", 42, Some(true)).hass_reachable, None);
}
