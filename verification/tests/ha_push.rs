//! Reporting events.

use dooraccess_rs::config::Config;
use dooraccess_rs::ha_push::{
    build_url, discover_ha_facing_ip, facing_target, iface_name_bytes, lookup_wwan,
    pick_non_loopback_ipv4, push_done, HaPushClient, PushError,
};

#[test]
fn pick_non_loopback_ipv4_cases() {
    assert_eq!(
        pick_non_loopback_ipv4(&[[127, 0, 0, 1], [192, 168, 1, 10]]),
        "192.168.1.10"
    );
    assert_eq!(pick_non_loopback_ipv4(&[[127, 0, 0, 1]]), "");
    assert_eq!(pick_non_loopback_ipv4(&[]), "");
}

#[test]
fn lookup_wwan_empty_iface() {
    assert_eq!(lookup_wwan("", &[[10, 0, 0, 1]]), "");
}

#[test]
fn lookup_wwan_missing_iface() {
    // An interface that does not exist has no addresses.
    assert_eq!(lookup_wwan("nonexistent_iface_zzz_99", &[]), "");
    assert!(iface_name_bytes("nonexistent_iface_zzz_99").is_none());
}

#[test]
fn build_url_format() {
    assert_eq!(
        build_url("10.0.0.66", 8123, "/api/dooraccess/x"),
        "http://10.0.0.66:8123/api/dooraccess/x"
    );
    assert_eq!(build_url("fe80::1", -1, "/x"), "http://[fe80::1]:-1/x");
}

#[test]
fn discover_ha_facing_ip_empty_host() {
    assert_eq!(discover_ha_facing_ip("", Some([10, 0, 0, 1])), "");
    assert!(facing_target("", 8123).is_none());
    assert_eq!(
        discover_ha_facing_ip("10.0.0.66", Some([10, 0, 0, 1])),
        "10.0.0.1"
    );
    assert_eq!(discover_ha_facing_ip("10.0.0.66", None), "");
    assert_eq!(facing_target("10.0.0.66", 8123).unwrap(), "10.0.0.66:8123");
}

#[test]
fn interface_names() {
    assert_eq!(
        iface_name_bytes("eth0").unwrap(),
        *b"eth0\0\0\0\0\0\0\0\0\0\0\0\0"
    );
    assert!(iface_name_bytes("fifteen_bytes_x").is_some());
    assert!(iface_name_bytes("sixteen_bytes_xx").is_none());
    assert!(iface_name_bytes("a\0b").is_none());
}

fn client() -> HaPushClient {
    let mut cfg = Config::default();
    cfg.hass.ipaddr = "10.0.0.66".into();
    cfg.hass.port = 8123;
    cfg.hass.api = "/api/x".into();
    cfg.hass.token = "secret".into();
    cfg.video.forward = true;
    cfg.video.format = "<flv>".into();
    HaPushClient::new(cfg)
}

#[test]
fn reports_are_sorted_and_authorized() {
    let (log, req) = client().push(
        "ring",
        &[
            ("to".into(), "b".into()),
            ("from".into(), "a".into()),
            ("to".into(), "c".into()),
        ],
    );
    let req = req.unwrap();
    assert_eq!(
        String::from_utf8(req.body.clone()).unwrap(),
        r#"{"event":"ring","from":"a","to":"c"}"#
    );
    assert_eq!(log, r#"HA Push: {"event":"ring","from":"a","to":"c"}"#);
    assert_eq!(req.url, "http://10.0.0.66:8123/api/x");
    assert_eq!(req.header.get("Content-Type"), Some("application/json"));
    assert_eq!(req.header.get("Authorization"), Some("Bearer secret"));
}

#[test]
fn diagnosis_report() {
    let (_, req) = client().push_diagnosis("", "10.1.1.1");
    assert_eq!(
        String::from_utf8(req.unwrap().body).unwrap(),
        r#"{"event":"diagnosis","video_format":"\u003cflv\u003e","video_forward":"1","wwan":"10.1.1.1"}"#
    );
    let (log, _) = client().push_diagnosis("10.2.2.2", "10.1.1.1");
    assert!(log.contains(r#""wwan":"10.2.2.2""#));
    assert_eq!(
        client().discover_ha_facing_ip(Some([10, 3, 3, 3])),
        "10.3.3.3"
    );
}

#[test]
fn nothing_is_reported_without_an_address() {
    let mut c = client();
    c.cfg.hass.api = String::new();
    let (log, r) = c.push("ring", &[]);
    assert_eq!(log, "HA Push skipped: api not configured");
    assert!(matches!(r, Err(PushError::NotConfigured(_))));
    assert_eq!(
        r.unwrap_err().message(),
        "hapush: HA api not configured (handshake pending)"
    );
}

#[test]
fn answers_to_reports() {
    assert!(push_done("ring", Ok(200)).1.is_ok());
    let (log, r) = push_done("ring", Ok(401));
    assert_eq!(log.unwrap(), "HA Push got status 401 (event=ring)");
    assert_eq!(r.unwrap_err().message(), "hapush: status 401");
    let (log, r) = push_done("ring", Err("refused".into()));
    assert_eq!(log.unwrap(), "HA Push failed: refused");
    assert_eq!(r.unwrap_err().message(), "hapush: do: refused");
    assert_eq!(
        PushError::Request("x".into()).message(),
        "hapush: build request: x"
    );
}
