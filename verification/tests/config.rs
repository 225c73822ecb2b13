//! Codecs, configuration and kept flags.

use dooraccess_rs::automation_state::{
    parse, persist_failure, render, temp_path, ParseError, Persister, State,
};
use dooraccess_rs::codec::{decode_bcd, encode_bcd, parse_uri, BcdError, UriError};
use dooraccess_rs::config::{
    config_from_text, conv_string_array, load_config, validate_uri, Config, ConfigError, FieldOutcome, IniSink,
    ReadFailure,
};

#[test]
fn packed_numbers() {
    assert_eq!(encode_bcd("06021103"), Ok([0x06, 0x02, 0x11, 0x03]));
    assert_eq!(decode_bcd([0x06, 0xaf, 0x11, 0x03]), "06af1103");
    assert_eq!(encode_bcd("AF000000"), Ok([0xaf, 0, 0, 0]));
    assert_eq!(encode_bcd("123"), Err(BcdError::Length { got: 3 }));
    assert_eq!(
        encode_bcd("1234x678"),
        Err(BcdError::Format { ch: 'x', index: 4 })
    );
    assert_eq!(encode_bcd(&decode_bcd([1, 2, 0xfe, 4])), Ok([1, 2, 0xfe, 4]));
}

#[test]
fn addresses_of_stations() {
    assert_eq!(
        parse_uri("06020000@172.16.106.201:18022"),
        Ok(("06020000".into(), "172.16.106.201".into(), 18022))
    );
    assert_eq!(parse_uri("nothing"), Err(UriError::Format));
    assert_eq!(
        parse_uri("0602@1.2.3.4:1"),
        Err(UriError::NameLen { got: 4 })
    );
    assert_eq!(parse_uri("06020000@host:1"), Err(UriError::IPv4Only));
    assert_eq!(parse_uri("06020000@1.2.3.4:0"), Err(UriError::Port));
    assert_eq!(parse_uri("06020000@1.2.3.4:65536"), Err(UriError::Port));
}

#[test]
fn kept_flags_read_back() {
    for (u, h) in [(true, true), (true, false), (false, true), (false, false)] {
        let st = State {
            auto_unlock: u,
            auto_hangup: h,
        };
        assert_eq!(parse(&render(st)), Ok(st));
    }
    assert_eq!(parse(b""), Err(ParseError));
    assert_eq!(parse(b"auto_unlock=true\n"), Err(ParseError));
    assert_eq!(
        parse(b"auto_unlock=maybe\nauto_hangup=true\n"),
        Err(ParseError)
    );
    assert_eq!(parse(&[0xff]), Err(ParseError));
    assert_eq!(temp_path("/a/b"), "/a/b.tmp");
    assert!(persist_failure("disk full").contains("disk full"));
}

#[test]
fn flags_are_kept_only_when_they_change() {
    let st = State {
        auto_unlock: true,
        auto_hangup: false,
    };
    let mut p = Persister::new();
    let bytes = p.persist(st).expect("a first state is written");
    assert_eq!(bytes, render(st));
    p.saved(st);
    assert!(p.persist(st).is_none());
    assert!(p
        .persist(State {
            auto_unlock: false,
            auto_hangup: false
        })
        .is_some());
}

const GOOD: &str = "\
sip = 06021103@172.16.106.91:18022
iface = eth1

[listen]
port = 8080

[station \"front\"]
sip = 06020000@172.16.106.152:18022

[hass]
ipaddr = 10.0.0.66
api = /api/x
token = t

[automation]
auto_unlock = true
";

#[test]
fn a_configuration() {
    let cfg = config_from_text(GOOD).unwrap();
    assert_eq!(cfg.sip, "06021103@172.16.106.91:18022");
    assert_eq!(cfg.iface, "eth1");
    assert_eq!(cfg.listen.port, 8080);
    assert_eq!(cfg.listen.addr, "0.0.0.0");
    assert_eq!(cfg.hass.port, 8123);
    assert!(cfg.automation.auto_unlock);
    assert!(!cfg.automation.auto_hangup);
}

#[test]
fn configurations_that_do_not_load() {
    let e = load_config("/c", Err(ReadFailure::NotFound)).unwrap_err();
    assert_eq!(e.message(), "config file not found: /c");
    let e = load_config("/c", Err(ReadFailure::Other("denied".into()))).unwrap_err();
    assert!(e.message().contains("denied"));
    let e = load_config("/c", Ok(vec![0xff])).unwrap_err();
    assert!(e.message().contains("config not valid UTF-8: invalid utf-8"));
    assert!(matches!(
        config_from_text("[listen\n"),
        Err(ConfigError::Parse { line: 1, .. })
    ));
    assert!(matches!(
        config_from_text("[listen]\nport = many\n"),
        Err(ConfigError::Parse { line: 2, .. })
    ));
    assert!(config_from_text("sip = nonsense\n").is_err());
}

#[test]
fn uris_are_checked() {
    assert!(validate_uri("06021103@172.16.106.91:18022").is_ok());
    for bad in ["", "x", "06021103@172.16.106.91", "06021103@host:1"] {
        assert!(validate_uri(bad).is_err(), "{bad}");
    }
}

#[test]
fn defaults_are_noted() {
    let mut cfg = Config::default();
    cfg.apply_defaults();
    assert_eq!(cfg.iface, "eth0.1");
    assert_eq!(cfg.listen.addr, "0.0.0.0");
    assert!(!cfg.missing_fields().is_empty());
}

#[test]
fn interfaces_to_listen_on() {
    let mut cfg = Config::default();
    let bridge = vec!["eth1".to_string()];
    assert_eq!(cfg.resolve_iface_list(Ok(bridge.clone())), Ok(bridge.clone()));
    assert_eq!(cfg.resolve_iface_list(Err("gone".into())), Err("gone".into()));
    cfg.iface_list = vec!["a".into(), "b".into()];
    assert_eq!(
        cfg.resolve_iface_list(Ok(bridge)),
        Ok(vec!["a".to_string(), "b".to_string()])
    );
}

#[test]
fn messages_show_what_was_wrong() {
    assert_eq!(
        validate_uri("0602110\"@172.16.106.91:18022").unwrap_err(),
        "name \"0602110\\\"\" contains non-hex char '\"'"
    );
    assert_eq!(
        validate_uri("06021103@172.16.106.091:18022").unwrap_err(),
        "ip \"172.16.106.091\" is not IPv4"
    );
    assert_eq!(
        validate_uri("06021103@172.16.106.91:70000").unwrap_err(),
        "port \"70000\" out of range"
    );
}

#[test]
fn refused_settings_change_nothing() {
    let mut cfg = Config::default();
    cfg.listen.port = 81;
    assert!(matches!(
        cfg.set_section("listen", "port", "many"),
        FieldOutcome::TypeErr(_)
    ));
    assert_eq!(cfg.listen.port, 81);
    assert_eq!(cfg.set_section("listen", "colour", "1"), FieldOutcome::Unknown);
    assert_eq!(cfg.set_top("colour", "1"), FieldOutcome::Unknown);
    assert_eq!(cfg.listen.port, 81);
    assert_eq!(cfg.sip, "");
    assert_eq!(cfg.set_section("listen", "port", "82"), FieldOutcome::Stored);
    assert_eq!(cfg.listen.port, 82);
}

#[test]
fn names_no_longer_used_are_noted_once() {
    let mut cfg = Config::default();
    cfg.detect_deprecated("brand = a\nfamily = b\nbrand = c\n[elev]\nfamily = d\n[elev \"x\"]\n");
    assert_eq!(cfg.deprecated_fields(), ["brand", "family", "elev"]);
}

#[test]
fn lists_read_back() {
    assert_eq!(conv_string_array("a, b,, c"), ["a", "b", "c"]);
    for value in ["", " , ", "eth0", " eth0 ,, eth1.2,\tbr lan ,", "\u{a0}x\u{3000},y"] {
        let items = conv_string_array(value);
        for i in &items {
            assert!(!i.is_empty() && i.trim() == i && !i.contains(','));
        }
        assert_eq!(conv_string_array(&items.join(", ")), items, "{value}");
    }
}

#[test]
fn kept_flags_are_all_or_nothing() {
    for auto_unlock in [false, true] {
        for auto_hangup in [false, true] {
            let st = State {
                auto_unlock,
                auto_hangup,
            };
            let text = String::from_utf8(render(st)).unwrap();
            let lines: Vec<&str> = text.lines().collect();
            assert_eq!(lines.len(), 2);
            for extra in ["", "  \t", "; note", " # note = true"] {
                for at in 0..3 {
                    let mut with = lines.clone();
                    with.insert(at, extra);
                    assert_eq!(parse(with.join("\n").as_bytes()), Ok(st), "{extra:?}");
                }
            }
            for bad in ["colour=true", "auto_unlock", "=true", "auto_hangup=yes", "auto_unlock="] {
                for at in 0..3 {
                    let mut with = lines.clone();
                    with.insert(at, bad);
                    assert_eq!(parse(with.join("\n").as_bytes()), Err(ParseError), "{bad}");
                }
            }
            for half in lines {
                assert_eq!(parse(format!("{half}\n").as_bytes()), Err(ParseError));
            }
        }
    }
}

#[test]
fn addresses_that_split_are_accepted() {
    for port in ["1", "00018022", "65535"] {
        let uri = format!("0602ABcd@10.0.0.255:{port}");
        assert!(parse_uri(&uri).is_ok());
        assert!(validate_uri(&uri).is_ok(), "{uri}");
    }
    assert!(parse_uri("06021103@10.0.0.1:+5").is_ok());
    assert!(validate_uri("06021103@10.0.0.1:+5").is_err());
    assert!(parse_uri("0602110g@10.0.0.1:5").is_ok());
    assert!(validate_uri("0602110g@10.0.0.1:5").is_err());
}
