//! The daemon's description of itself.

use vstd::prelude::*;
use vstd::string::*;
use vstd::utf8::*;

use crate::config::{Config, ConfigView, SUPPORTED_BRAND};
use crate::httpx::json;
use crate::httpx::json::{encode_struct, JsonOptions, JsonValue};
use crate::text;

verus! {

/// The name under which the daemon is known.
pub const DAEMON_NAME: &'static str = "dooraccess-go";

/// The kind of video that stations send.
pub const VIDEO_PROTOCOL: &'static str = "anjubao-h264";

/// A station, as far as it is shown.
#[derive(Debug, Clone, PartialEq, Eq)]
pub struct StationDesc {
    pub sip: String,
}

/// The video settings.
#[derive(Debug, Clone, PartialEq, Eq)]
pub struct VideoDesc {
    pub forward: bool,
    pub forward_supported: bool,
    pub protocol: String,
    pub format: String,
    pub cache_path: String,
}

/// The daemon's description of itself.
#[derive(Debug, Clone, PartialEq, Eq)]
pub struct SelfDesc {
    pub version: String,
    pub pid: u32,
    pub brand: String,
    pub daemon: String,
    pub monitor: String,
    pub stations: Vec<StationDesc>,
    pub video: VideoDesc,
    /// Whether the server that gets events answers, where that was tried.
    pub hass_reachable: Option<bool>,
}

/// `SelfDesc` with its texts as sequences.
pub struct DescView {
    pub version: Seq<char>,
    pub pid: u32,
    pub brand: Seq<char>,
    pub daemon: Seq<char>,
    pub monitor: Seq<char>,
    pub stations: Seq<Seq<char>>,
    pub forward: bool,
    pub forward_supported: bool,
    pub protocol: Seq<char>,
    pub format: Seq<char>,
    pub cache_path: Seq<char>,
    pub hass_reachable: Option<bool>,
}

impl View for SelfDesc {
    type V = DescView;

    open spec fn view(&self) -> DescView {
        DescView {
            version: self.version@,
            pid: self.pid,
            brand: self.brand@,
            daemon: self.daemon@,
            monitor: self.monitor@,
            stations: station_sips(self.stations@),
            forward: self.video.forward,
            forward_supported: self.video.forward_supported,
            protocol: self.video.protocol@,
            format: self.video.format@,
            cache_path: self.video.cache_path@,
            hass_reachable: self.hass_reachable,
        }
    }
}

/// The addresses of the stations.
pub open spec fn station_sips(s: Seq<StationDesc>) -> Seq<Seq<char>> {
    Seq::new(s.len(), |i: int| s[i].sip@)
}

/// `v`, or `def` where it is empty.
pub open spec fn or_default(v: Seq<char>, def: Seq<char>) -> Seq<char> {
    if v.len() == 0 {
        def
    } else {
        v
    }
}

/// The description of a daemon with the configuration `m`.
pub open spec fn described(
    m: Option<ConfigView>,
    version: Seq<char>,
    pid: u32,
    hass_reachable: Option<bool>,
) -> DescView {
    match m {
        Some(c) => DescView {
            version: or_default(version, "dev"@),
            pid,
            brand: SUPPORTED_BRAND@,
            daemon: DAEMON_NAME@,
            monitor: c.sip,
            stations: Seq::new(c.stations.len(), |i: int| c.stations[i].sip),
            forward: c.video.forward,
            forward_supported: c.video.forward,
            protocol: VIDEO_PROTOCOL@,
            format: c.video.format,
            cache_path: c.video.cache_path,
            hass_reachable: if c.hass.ipaddr.len() == 0 {
                None
            } else {
                hass_reachable
            },
        },
        None => DescView {
            version: or_default(version, "dev"@),
            pid,
            brand: SUPPORTED_BRAND@,
            daemon: DAEMON_NAME@,
            monitor: Seq::empty(),
            stations: Seq::empty(),
            forward: false,
            forward_supported: false,
            protocol: Seq::empty(),
            format: Seq::empty(),
            cache_path: Seq::empty(),
            hass_reachable: None,
        },
    }
}

fn safe_or_default(v: &str, def: &str) -> (out: String)
    ensures
        out@ == or_default(v@, def@),
{
    if v.is_empty() {
        def.to_owned()
    } else {
        v.to_owned()
    }
}

/// Describes the daemon that runs as process `pid`. `hass_reachable` says what came of trying
/// to reach the server, where that was tried.
pub fn build(cfg: Option<&Config>, version: &str, pid: u32, hass_reachable: Option<bool>) -> (sd:
    SelfDesc)
    ensures
        sd@ == described(
            match cfg {
                Some(c) => Some(c@),
                None => None,
            },
            version@,
            pid,
            hass_reachable,
        ),
{
    let mut sd = SelfDesc {
        version: safe_or_default(version, "dev"),
        pid,
        brand: SUPPORTED_BRAND.to_owned(),
        daemon: DAEMON_NAME.to_owned(),
        monitor: String::new(),
        stations: Vec::new(),
        video: VideoDesc {
            forward: false,
            forward_supported: false,
            protocol: String::new(),
            format: String::new(),
            cache_path: String::new(),
        },
        hass_reachable: None,
    };
    assert(station_sips(sd.stations@) =~= Seq::empty());
    match cfg {
        Some(c) => {
            sd.monitor = c.sip.clone();
            let ghost all = c@.stations;
            let mut stations: Vec<StationDesc> = Vec::new();
            let mut i: usize = 0;
            while i < c.stations.len()
                invariant
                    i <= c.stations.len(),
                    all == c@.stations,
                    stations@.len() == i,
                    forall|j: int| 0 <= j < i ==> (#[trigger] stations@[j]).sip@ == all[j].sip,
                decreases c.stations.len() - i,
            {
                stations.push(StationDesc { sip: c.stations[i].sip.clone() });
                assert(all[i as int] == c.stations@[i as int]@);
                i += 1;
            }
            sd.stations = stations;
            assert(station_sips(sd.stations@) =~= Seq::new(all.len(), |i: int| all[i].sip));
            sd.video = VideoDesc {
                forward: c.video.forward,
                forward_supported: c.video.forward,
                protocol: VIDEO_PROTOCOL.to_owned(),
                format: c.video.format.clone(),
                cache_path: c.video.cache_path.clone(),
            };
            if !c.hass.ipaddr.as_str().is_empty() {
                sd.hass_reachable = hass_reachable;
            }
        },
        None => {},
    }
    sd
}

// ---------------------------------------------------------------------------
// JSON
// ---------------------------------------------------------------------------

pub open spec fn flag_text(b: bool) -> Seq<char> {
    if b {
        "true"@
    } else {
        "false"@
    }
}

/// The first `n` stations with commas between them.
pub open spec fn stations_text(sips: Seq<Seq<char>>, n: nat) -> Seq<char>
    decreases n,
{
    if n == 0 || n > sips.len() {
        Seq::empty()
    } else {
        stations_text(sips, (n - 1) as nat) + json::comma(n) + json::object_of(
            seq![("sip"@, json::string_text(sips[n - 1], false))],
            false,
        )
    }
}

/// The text of a description: six members; process, and whether the server answers, are not
/// shown.
pub open spec fn info_text(d: DescView) -> Seq<char> {
    json::object_of(
        seq![
            ("daemon"@, json::string_text(d.daemon, false)),
            ("version"@, json::string_text(d.version, false)),
            ("brand"@, json::string_text(d.brand, false)),
            ("monitor"@, json::string_text(d.monitor, false)),
            (
                "outdoor_stations"@,
                seq!['['] + stations_text(d.stations, d.stations.len()) + seq![']'],
            ),
            (
                "video"@,
                json::object_of(
                    seq![
                        ("forward"@, flag_text(d.forward)),
                        ("forward_supported"@, flag_text(d.forward_supported)),
                        ("protocol"@, json::string_text(d.protocol, false)),
                        ("format"@, json::string_text(d.format, false)),
                        ("cache_path"@, json::string_text(d.cache_path, false)),
                    ],
                    false,
                ),
            ),
        ],
        false,
    )
}

/// The members of an object by key and written value.
pub open spec fn member_pairs(fields: Seq<(String, JsonValue)>, html: bool) -> Seq<
    (Seq<char>, Seq<char>),
> {
    Seq::new(fields.len(), |i: int| (fields[i].0@, json::value_text(fields[i].1, html)))
}

proof fn lemma_members(fields: Seq<(String, JsonValue)>, n: nat, html: bool)
    requires
        n <= fields.len(),
    ensures
        json::members_text(fields, n, html) == json::pairs_text(
            member_pairs(fields, html),
            n,
            html,
        ),
    decreases n,
{
    if n > 0 {
        lemma_members(fields, (n - 1) as nat, html);
        let f = fields[n - 1];
        let head = json::members_text(fields, (n - 1) as nat, html) + json::comma(n);
        assert(member_pairs(fields, html)[n - 1] == (f.0@, json::value_text(f.1, html)));
        assert(head + json::member_text(f.0@, f.1, html) =~= head + json::string_text(f.0@, html)
            + seq![':'] + json::value_text(f.1, html));
    }
}

fn station_value(sip: &str) -> (v: JsonValue)
    ensures
        json::value_text(v, false) == json::object_of(
            seq![("sip"@, json::string_text(sip@, false))],
            false,
        ),
{
    let mut fields: Vec<(String, JsonValue)> = Vec::new();
    fields.push(("sip".to_owned(), JsonValue::String(sip.to_owned())));
    proof {
        lemma_members(fields@, 1, false);
        assert(member_pairs(fields@, false) =~= seq![("sip"@, json::string_text(sip@, false))]);
    }
    JsonValue::Struct(fields)
}

fn stations_value(stations: &Vec<StationDesc>) -> (v: JsonValue)
    ensures
        json::value_text(v, false) == seq!['['] + stations_text(
            station_sips(stations@),
            stations@.len(),
        ) + seq![']'],
{
    let ghost sips = station_sips(stations@);
    let mut items: Vec<JsonValue> = Vec::new();
    let mut i: usize = 0;
    while i < stations.len()
        invariant
            i <= stations.len(),
            items@.len() == i,
            sips == station_sips(stations@),
            forall|j: int|
                0 <= j < i ==> json::value_text(#[trigger] items@[j], false) == json::object_of(
                    seq![("sip"@, json::string_text(sips[j], false))],
                    false,
                ),
        decreases stations.len() - i,
    {
        assert(sips[i as int] == stations@[i as int].sip@);
        items.push(station_value(stations[i].sip.as_str()));
        i += 1;
    }
    proof {
        lemma_items(items@, sips, items@.len());
    }
    JsonValue::Array(items)
}

proof fn lemma_items(items: Seq<JsonValue>, sips: Seq<Seq<char>>, n: nat)
    requires
        n <= items.len(),
        items.len() == sips.len(),
        forall|j: int|
            0 <= j < items.len() ==> json::value_text(#[trigger] items[j], false)
                == json::object_of(seq![("sip"@, json::string_text(sips[j], false))], false),
    ensures
        json::items_text(items, n, false) == stations_text(sips, n),
    decreases n,
{
    if n > 0 {
        lemma_items(items, sips, (n - 1) as nat);
        assert(json::value_text(items[n - 1], false) == json::object_of(
            seq![("sip"@, json::string_text(sips[n - 1], false))],
            false,
        ));
    }
}

fn video_value(v: &VideoDesc) -> (r: JsonValue)
    ensures
        json::value_text(r, false) == json::object_of(
            seq![
                ("forward"@, flag_text(v.forward)),
                ("forward_supported"@, flag_text(v.forward_supported)),
                ("protocol"@, json::string_text(v.protocol@, false)),
                ("format"@, json::string_text(v.format@, false)),
                ("cache_path"@, json::string_text(v.cache_path@, false)),
            ],
            false,
        ),
{
    let mut fields: Vec<(String, JsonValue)> = Vec::new();
    fields.push(("forward".to_owned(), JsonValue::Bool(v.forward)));
    fields.push(("forward_supported".to_owned(), JsonValue::Bool(v.forward_supported)));
    fields.push(("protocol".to_owned(), JsonValue::String(v.protocol.clone())));
    fields.push(("format".to_owned(), JsonValue::String(v.format.clone())));
    fields.push(("cache_path".to_owned(), JsonValue::String(v.cache_path.clone())));
    proof {
        lemma_members(fields@, 5, false);
        assert(member_pairs(fields@, false) =~= seq![
            ("forward"@, flag_text(v.forward)),
            ("forward_supported"@, flag_text(v.forward_supported)),
            ("protocol"@, json::string_text(v.protocol@, false)),
            ("format"@, json::string_text(v.format@, false)),
            ("cache_path"@, json::string_text(v.cache_path@, false)),
        ]);
    }
    JsonValue::Struct(fields)
}

/// Writes a description as the body of an answer.
pub fn render_json(sd: &SelfDesc) -> (out: Vec<u8>)
    ensures
        out@ == encode_utf8(info_text(sd@).push('\n')),
{
    let fields = [
        ("daemon", JsonValue::String(sd.daemon.clone())),
        ("version", JsonValue::String(sd.version.clone())),
        ("brand", JsonValue::String(sd.brand.clone())),
        ("monitor", JsonValue::String(sd.monitor.clone())),
        ("outdoor_stations", stations_value(&sd.stations)),
        ("video", video_value(&sd.video)),
    ];
    proof {
        json::lemma_record(fields@, false);
        assert(json::object_of(json::record_pairs(fields@, false), false) == info_text(sd@)) by {
            let d = sd@;
            assert(json::record_pairs(fields@, false) =~= seq![
                ("daemon"@, json::string_text(d.daemon, false)),
                ("version"@, json::string_text(d.version, false)),
                ("brand"@, json::string_text(d.brand, false)),
                ("monitor"@, json::string_text(d.monitor, false)),
                (
                    "outdoor_stations"@,
                    seq!['['] + stations_text(d.stations, d.stations.len()) + seq![']'],
                ),
                (
                    "video"@,
                    json::object_of(
                        seq![
                            ("forward"@, flag_text(d.forward)),
                            ("forward_supported"@, flag_text(d.forward_supported)),
                            ("protocol"@, json::string_text(d.protocol, false)),
                            ("format"@, json::string_text(d.format, false)),
                            ("cache_path"@, json::string_text(d.cache_path, false)),
                        ],
                        false,
                    ),
                ),
            ]);
        }
    }
    encode_struct(fields.as_slice(), JsonOptions::encode())
}

/// What is shown of a daemon does not depend on the token, the address or the other settings
/// of the server that gets events.
pub proof fn law_info_hides_server(m: ConfigView, n: ConfigView, version: Seq<char>, pid: u32)
    requires
        n == (ConfigView { hass: n.hass, ..m }),
    ensures
        info_text(described(Some(m), version, pid, None)) == info_text(
            described(Some(n), version, pid, None),
        ),
{
    assert(described(Some(m), version, pid, None).stations =~= described(
        Some(n),
        version,
        pid,
        None,
    ).stations);
}

} // verus!
