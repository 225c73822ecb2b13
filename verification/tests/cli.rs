//! The command line, start and end.

use dooraccess_rs::cli::{
    after_load, after_run, bool_str, flags_line, flags_push, http_addr, listen18022_line,
    listen6672_line, main_impl, on_off, parse_flags, render_banner, run_result, shutdown_plan,
    slaves_line, video_line, wait_over, ShutdownStep, Started, AUTOMATION_STATE_PATH,
    DEFAULT_CONFIG_PATH,
};
use dooraccess_rs::config::{load_config, Config, ReadFailure};
use dooraccess_rs::info::build;
use dooraccess_rs::log::compose;

#[test]
fn parse_flags_default_and_explicit() {
    assert_eq!(
        parse_flags(&["bin".into()]).unwrap(),
        (
            DEFAULT_CONFIG_PATH.to_string(),
            AUTOMATION_STATE_PATH.to_string()
        )
    );
    assert_eq!(
        parse_flags(&["bin".into(), "--config".into(), "/tmp/x.ini".into()]).unwrap(),
        ("/tmp/x.ini".to_string(), AUTOMATION_STATE_PATH.to_string())
    );
    assert_eq!(
        parse_flags(&["bin".into(), "--config=/tmp/y.ini".into()]).unwrap(),
        ("/tmp/y.ini".to_string(), AUTOMATION_STATE_PATH.to_string())
    );
    assert_eq!(
        parse_flags(&["bin".into(), "--state".into(), "/tmp/s.state".into()]).unwrap(),
        (DEFAULT_CONFIG_PATH.to_string(), "/tmp/s.state".to_string())
    );
    assert_eq!(
        parse_flags(&["bin".into(), "--state=/tmp/t.state".into()]).unwrap(),
        (DEFAULT_CONFIG_PATH.to_string(), "/tmp/t.state".to_string())
    );
    assert_eq!(
        parse_flags(&[
            "bin".into(),
            "--config".into(),
            "/etc/dooraccess/config.ini".into(),
            "--state".into(),
            "/etc/dooraccess/automation.state".into(),
        ])
        .unwrap(),
        (
            "/etc/dooraccess/config.ini".to_string(),
            "/etc/dooraccess/automation.state".to_string()
        )
    );
}

#[test]
fn parse_flags_errors() {
    assert!(parse_flags(&["bin".into(), "--config".into()]).is_err());
    assert!(parse_flags(&["bin".into(), "--state".into()]).is_err());
    assert!(parse_flags(&["bin".into(), "--bogus".into()]).is_err());
    assert_eq!(
        parse_flags(&["bin".into(), "x".into()]).unwrap_err(),
        "unknown argument: x"
    );
}

#[test]
fn main_impl_flag_error_returns_2() {
    match main_impl(&["bin".into(), "--unknown".into()]) {
        Started::Exit { code, lines } => {
            assert_eq!(code, 2);
            assert_eq!(lines[0], "dooraccess-rs: unknown argument: --unknown");
            assert_eq!(
                lines[1],
                "usage: dooraccess-rs [--config <path>] [--state <path>]\n\t\
                 default config: /etc/dooraccess-go/config.ini\n\tdefault state: \
                 /etc/dooraccess-go/automation.state"
            );
        }
        other => panic!("{other:?}"),
    }
}

#[test]
fn main_impl_config_missing_returns_1() {
    let started = main_impl(&[
        "bin".into(),
        "--config".into(),
        "/nonexistent/zzz_no_such_config.ini".into(),
    ]);
    let Started::Load {
        line, config_path, ..
    } = started
    else {
        panic!("the configuration is not loaded");
    };
    assert_eq!(
        line,
        "starting dooraccess-rs (anjubao replica), config=/nonexistent/zzz_no_such_config.ini"
    );
    let (lines, r) = after_load(load_config(&config_path, Err(ReadFailure::NotFound)));
    assert_eq!(r.unwrap_err(), 1);
    let out = compose(None, 0, &lines[0]);
    assert!(out.contains("load config"), "{out}");
    assert!(has_ts_prefix(&out), "{out}");
}

fn has_ts_prefix(line: &str) -> bool {
    const TAG: &str = "dooraccess-rs: ";
    let Some(rest) = line.strip_prefix(TAG) else {
        return false;
    };
    let bytes = rest.as_bytes();
    bytes.len() >= 5 && bytes[0..4].iter().all(u8::is_ascii_digit) && bytes[4] == b'/'
}

#[test]
fn what_is_logged_about_a_configuration() {
    let mut cfg = Config::default();
    cfg.missing_fields = vec!["a".into(), "b".into()];
    cfg.deprecated_fields = vec!["x".into(), "y\"".into()];
    cfg.parser_warnings = vec!["careful".into()];
    cfg.hass.token = "t".into();
    let (lines, r) = after_load(Ok(cfg));
    assert!(r.is_ok());
    assert_eq!(
        lines,
        [
            "config: field a missing, using default",
            "config: field b missing, using default",
            "config: [\"x\", \"y\\\"\"] fields deprecated and ignored; safe to remove from \
             config.ini (brand/family/elev/notification removed in v0.1.6)",
            "careful",
            "config: hass.token configured but hass.api missing; HA push disabled until \
             cfg.hass.api is set",
        ]
    );
}

#[test]
fn how_it_ends() {
    assert_eq!(
        after_run(Ok(())),
        ("dooraccess-rs exited cleanly".to_string(), 0)
    );
    assert_eq!(after_run(Err("x".into())), ("run: x".to_string(), 1));
    assert_eq!(run_result(Some(Err("bind".into()))), Err("bind".into()));
    assert_eq!(run_result(Some(Ok(()))), Ok(()));
    assert_eq!(run_result(None), Ok(()));
    assert_eq!(
        wait_over(true, true),
        Some("shutdown signal received, draining")
    );
    assert!(wait_over(false, true).unwrap().contains("http8080"));
    assert_eq!(wait_over(false, false), None);
}

#[test]
fn steps_of_the_end() {
    assert_eq!(
        shutdown_plan(true, true),
        [
            ShutdownStep::SetFlag,
            ShutdownStep::StopVideo,
            ShutdownStep::JoinListeners,
            ShutdownStep::JoinConsumer,
            ShutdownStep::QueueShutdown,
            ShutdownStep::JoinWorker,
            ShutdownStep::StopHttp,
            ShutdownStep::JoinHttp,
            ShutdownStep::JoinPushes,
        ]
    );
    let short = shutdown_plan(false, false);
    assert_eq!(short.len(), 7);
    assert!(!short.contains(&ShutdownStep::StopVideo));
}

#[test]
fn lines_at_start() {
    let mut cfg = Config::default();
    cfg.sip = "m".into();
    cfg.iface = "eth0".into();
    cfg.listen.addr = "0.0.0.0".into();
    cfg.listen.port = 8080;
    cfg.hass.ipaddr = "10.0.0.66".into();
    let sd = build(Some(&cfg), "1.0", 9, Some(false));
    assert_eq!(
        render_banner(&sd, &cfg),
        [
            "banner: dooraccess-rs 1.0 (brand=anjubao, pid=9)",
            "banner: monitor=m stations=0 iface=eth0",
            "banner: listen=0.0.0.0:8080 video.forward=false",
            "banner: hass_reachable=false",
        ]
    );
    assert_eq!(http_addr(&cfg), "0.0.0.0:8080");
    assert_eq!(
        video_line(&cfg),
        "video: forward disabled (cfg.video.forward=false)"
    );
    cfg.video.forward = true;
    cfg.video.format = "flv".into();
    assert_eq!(video_line(&cfg), "video: forward enabled, format=flv");
    let slaves = ["eth1".to_string(), "eth0.2".to_string()];
    assert_eq!(
        slaves_line(Ok(&slaves), "br-door"),
        "listeners: slaves=[\"eth1\", \"eth0.2\"] (resolved from iface=\"br-door\")"
    );
    assert_eq!(
        slaves_line(Err("gone"), "x"),
        "listeners: resolve iface list failed: gone (listeners will not start)"
    );
    assert_eq!(
        listen18022_line(&slaves),
        "listen18022: started on [\"eth1\", \"eth0.2\"] (PROMISC, BPF tcp:18022)"
    );
    assert_eq!(
        listen18022_line(&[]),
        "listen18022: no slaves resolved, will not start"
    );
    assert_eq!(
        listen6672_line(&slaves[..1]).unwrap(),
        "listen6672: started on [\"eth1\"] (PROMISC, BPF udp:6672)"
    );
    assert!(listen6672_line(&[]).is_none());
    assert_eq!(
        flags_line(true, false, "state"),
        "automation: auto_unlock=on auto_hangup=off (source=state)"
    );
    let p = flags_push(true, false);
    assert_eq!(p.event, "automation_state");
    assert_eq!(p.fields[0].1, "true");
    assert_eq!(p.fields[1].1, "false");
    assert_eq!(on_off(true), "on");
    assert_eq!(bool_str(false), "false");
}
