//! The daemon's configuration: schema, defaults, checks and the INI file it comes from.

use vstd::prelude::*;
use vstd::slice::slice_subrange;
use vstd::string::*;
use vstd::utf8::*;

use crate::codec::parse_octet;
use crate::text;
use crate::text::{chars_eq, chars_of, debug_char_string, debug_string, find_char, rfind_char,
    split_chars, str_eq, string_of, trim_chars};

pub mod ini;

pub use ini::{conv_bool, conv_int, conv_string_array, parse_ini, FieldOutcome, IniSink};

verus! {

/// The only brand that is supported.
pub const SUPPORTED_BRAND: &'static str = "anjubao";

pub const DEFAULT_IFACE: &'static str = "eth0.1";

pub const DEFAULT_HASS_PORT: i64 = 8123;

pub const DEFAULT_LISTEN_ADDR: &'static str = "0.0.0.0";

pub const DEFAULT_LISTEN_PORT: i64 = 8080;

// ---------------------------------------------------------------------------
// Schema
// ---------------------------------------------------------------------------

/// `[listen]`: where the control interface listens.
#[derive(Debug, Clone, PartialEq, Eq)]
pub struct Listen {
    pub addr: String,
    pub port: i64,
}

/// `[station "name"]`: an outdoor station.
#[derive(Debug, Clone, PartialEq, Eq)]
pub struct Station {
    pub sip: String,
    pub rtsp_url: String,
}

/// `[hass]`: the home automation server that gets events.
#[derive(Debug, Clone, PartialEq, Eq)]
pub struct Hass {
    pub ipaddr: String,
    pub port: i64,
    pub api: String,
    pub token: String,
}

/// `[video]`
#[derive(Debug, Clone, PartialEq, Eq)]
pub struct Video {
    pub forward: bool,
    pub format: String,
    pub cache_path: String,
}

/// `[automation]`: the flags used until others are saved.
#[derive(Debug, Clone, Copy, PartialEq, Eq, Structural)]
pub struct Automation {
    pub auto_unlock: bool,
    pub auto_hangup: bool,
}

/// The configuration, and notes made while it was read.
#[derive(Debug, Clone, PartialEq, Eq)]
pub struct Config {
    pub sip: String,
    pub iface: String,
    pub iface_list: Vec<String>,
    pub listen: Listen,
    pub stations: Vec<Station>,
    pub hass: Hass,
    pub video: Video,
    pub automation: Automation,
    /// Settings that were filled in with defaults.
    pub missing_fields: Vec<String>,
    /// Names in the file that are no longer used.
    pub deprecated_fields: Vec<String>,
    /// Warnings about unknown names in the file.
    pub parser_warnings: Vec<String>,
}

pub struct ListenView {
    pub addr: Seq<char>,
    pub port: int,
}

pub struct StationView {
    pub sip: Seq<char>,
    pub rtsp_url: Seq<char>,
}

pub struct HassView {
    pub ipaddr: Seq<char>,
    pub port: int,
    pub api: Seq<char>,
    pub token: Seq<char>,
}

pub struct VideoView {
    pub forward: bool,
    pub format: Seq<char>,
    pub cache_path: Seq<char>,
}

/// `Config` with its texts and lists as sequences.
pub struct ConfigView {
    pub sip: Seq<char>,
    pub iface: Seq<char>,
    pub iface_list: Seq<Seq<char>>,
    pub listen: ListenView,
    pub stations: Seq<StationView>,
    pub hass: HassView,
    pub video: VideoView,
    pub automation: Automation,
    /// Settings that were filled in with defaults.
    pub missing: Seq<Seq<char>>,
    /// Names in the file that are no longer used.
    pub deprecated: Seq<Seq<char>>,
    /// Warnings about unknown names in the file.
    pub warnings: Seq<Seq<char>>,
}

impl View for Listen {
    type V = ListenView;

    open spec fn view(&self) -> ListenView {
        ListenView { addr: self.addr@, port: self.port as int }
    }
}

impl View for Station {
    type V = StationView;

    open spec fn view(&self) -> StationView {
        StationView { sip: self.sip@, rtsp_url: self.rtsp_url@ }
    }
}

impl View for Hass {
    type V = HassView;

    open spec fn view(&self) -> HassView {
        HassView {
            ipaddr: self.ipaddr@,
            port: self.port as int,
            api: self.api@,
            token: self.token@,
        }
    }
}

impl View for Video {
    type V = VideoView;

    open spec fn view(&self) -> VideoView {
        VideoView {
            forward: self.forward,
            format: self.format@,
            cache_path: self.cache_path@,
        }
    }
}

/// The stations with their texts as sequences.
pub open spec fn station_views(s: Seq<Station>) -> Seq<StationView> {
    Seq::new(s.len(), |i: int| s[i]@)
}

impl View for Config {
    type V = ConfigView;

    open spec fn view(&self) -> ConfigView {
        ConfigView {
            sip: self.sip@,
            iface: self.iface@,
            iface_list: text::string_views(self.iface_list@),
            listen: self.listen@,
            stations: station_views(self.stations@),
            hass: self.hass@,
            video: self.video@,
            automation: self.automation,
            missing: text::string_views(self.missing_fields@),
            deprecated: text::string_views(self.deprecated_fields@),
            warnings: text::string_views(self.parser_warnings@),
        }
    }
}

/// A station with nothing set.
pub open spec fn empty_station() -> StationView {
    StationView { sip: Seq::empty(), rtsp_url: Seq::empty() }
}

/// A configuration with nothing set.
pub open spec fn empty_config() -> ConfigView {
    ConfigView {
        sip: Seq::empty(),
        iface: Seq::empty(),
        iface_list: Seq::empty(),
        listen: ListenView { addr: Seq::empty(), port: 0 },
        stations: Seq::empty(),
        hass: HassView {
            ipaddr: Seq::empty(),
            port: 0,
            api: Seq::empty(),
            token: Seq::empty(),
        },
        video: VideoView { forward: false, format: Seq::empty(), cache_path: Seq::empty() },
        automation: Automation { auto_unlock: false, auto_hangup: false },
        missing: Seq::empty(),
        deprecated: Seq::empty(),
        warnings: Seq::empty(),
    }
}

impl Default for Listen {
    fn default() -> (r: Self)
        ensures
            r@ == empty_config().listen,
    {
        Listen { addr: String::new(), port: 0 }
    }
}

impl Default for Station {
    fn default() -> (r: Self)
        ensures
            r@ == empty_station(),
    {
        Station { sip: String::new(), rtsp_url: String::new() }
    }
}

impl Default for Hass {
    fn default() -> (r: Self)
        ensures
            r@ == empty_config().hass,
    {
        Hass { ipaddr: String::new(), port: 0, api: String::new(), token: String::new() }
    }
}

impl Default for Video {
    fn default() -> (r: Self)
        ensures
            r@ == empty_config().video,
    {
        Video { forward: false, format: String::new(), cache_path: String::new() }
    }
}

impl Default for Automation {
    fn default() -> (r: Self)
        ensures
            r == empty_config().automation,
    {
        Automation { auto_unlock: false, auto_hangup: false }
    }
}

impl Default for Config {
    fn default() -> (r: Self)
        ensures
            r@ == empty_config(),
    {
        let r = Config {
            sip: String::new(),
            iface: String::new(),
            iface_list: Vec::new(),
            listen: Listen { addr: String::new(), port: 0 },
            stations: Vec::new(),
            hass: Hass { ipaddr: String::new(), port: 0, api: String::new(), token: String::new() },
            video: Video { forward: false, format: String::new(), cache_path: String::new() },
            automation: Automation { auto_unlock: false, auto_hangup: false },
            missing_fields: Vec::new(),
            deprecated_fields: Vec::new(),
            parser_warnings: Vec::new(),
        };
        assert(r@.iface_list =~= Seq::empty());
        assert(r@.stations =~= Seq::empty());
        assert(r@.missing =~= Seq::empty());
        assert(r@.deprecated =~= Seq::empty());
        assert(r@.warnings =~= Seq::empty());
        r
    }
}

// ---------------------------------------------------------------------------
// Errors
// ---------------------------------------------------------------------------

/// Why a configuration was refused.
#[derive(Debug, Clone, PartialEq, Eq)]
pub enum ConfigError {
    /// There is no such file.
    NotFound { path: String },
    /// The file could not be read, or is not UTF-8.
    Read { path: String, msg: String },
    /// A line was refused.
    Parse { line: usize, msg: String },
    /// A setting was refused.
    Validation(ValidationError),
}

/// The setting that was refused, its value, and what is wanted instead.
#[derive(Debug, Clone, PartialEq, Eq)]
pub struct ValidationError {
    pub field: String,
    pub value: String,
    pub want: String,
}

/// `ConfigError` with its texts as sequences.
pub enum FaultView {
    NotFound { path: Seq<char> },
    Read { path: Seq<char>, msg: Seq<char> },
    Parse { line: int, msg: Seq<char> },
    Validation { field: Seq<char>, value: Seq<char>, want: Seq<char> },
}

impl View for ConfigError {
    type V = FaultView;

    open spec fn view(&self) -> FaultView {
        match self {
            ConfigError::NotFound { path } => FaultView::NotFound { path: path@ },
            ConfigError::Read { path, msg } => FaultView::Read { path: path@, msg: msg@ },
            ConfigError::Parse { line, msg } => FaultView::Parse { line: *line as int, msg: msg@ },
            ConfigError::Validation(e) => FaultView::Validation {
                field: e.field@,
                value: e.value@,
                want: e.want@,
            },
        }
    }
}

/// The text shown for an error.
pub open spec fn fault_text(f: FaultView) -> Seq<char> {
    match f {
        FaultView::NotFound { path } => "config file not found: "@ + path,
        FaultView::Read { path, msg } => "read config "@ + path + ": "@ + msg,
        FaultView::Parse { line, msg } => "config: line "@ + text::dec_int(line) + ": "@ + msg,
        FaultView::Validation { field, value, want } => "config field "@ + field + " = "@ + value
            + ", want "@ + want,
    }
}

impl ConfigError {
    /// The text shown for the error.
    pub fn message(&self) -> (out: String)
        ensures
            out@ == fault_text(self@),
    {
        match self {
            ConfigError::NotFound { path } => {
                let mut out = "config file not found: ".to_owned();
                out.append(path.as_str());
                out
            },
            ConfigError::Read { path, msg } => {
                let mut out = "read config ".to_owned();
                out.append(path.as_str());
                out.append(": ");
                out.append(msg.as_str());
                out
            },
            ConfigError::Parse { line, msg } => {
                let mut out = "config: line ".to_owned();
                text::push_dec(&mut out, *line as u64);
                out.append(": ");
                out.append(msg.as_str());
                out
            },
            ConfigError::Validation(e) => {
                let mut out = "config field ".to_owned();
                out.append(e.field.as_str());
                out.append(" = ");
                out.append(e.value.as_str());
                out.append(", want ");
                out.append(e.want.as_str());
                out
            },
        }
    }
}

// ---------------------------------------------------------------------------
// Settings by name
// ---------------------------------------------------------------------------

/// Stores an integer setting through `put`, or refuses the value.
pub open spec fn put_int(
    m: ConfigView,
    key: Seq<char>,
    value: Seq<char>,
    put: spec_fn(int) -> ConfigView,
) -> (ConfigView, ini::FieldView) {
    match ini::int_setting(value) {
        Some(n) => (put(n), ini::FieldView::Stored),
        None => (m, ini::FieldView::TypeErr(ini::int_fault(value, key))),
    }
}

/// Stores a flag setting through `put`, or refuses the value.
pub open spec fn put_bool(
    m: ConfigView,
    key: Seq<char>,
    value: Seq<char>,
    put: spec_fn(bool) -> ConfigView,
) -> (ConfigView, ini::FieldView) {
    match ini::bool_setting(value) {
        Some(b) => (put(b), ini::FieldView::Stored),
        None => (m, ini::FieldView::TypeErr(ini::bool_fault(value, key))),
    }
}

pub open spec fn is_record(section: Seq<char>) -> bool {
    section == "listen"@ || section == "hass"@ || section == "video"@ || section == "automation"@
}

/// Storing a setting at the top level.
pub open spec fn config_top(m: ConfigView, key: Seq<char>, value: Seq<char>) -> (
    ConfigView,
    ini::FieldView,
) {
    if key == "sip"@ {
        (ConfigView { sip: value, ..m }, ini::FieldView::Stored)
    } else if key == "iface"@ {
        (ConfigView { iface: value, ..m }, ini::FieldView::Stored)
    } else if key == "iface_list"@ {
        (ConfigView { iface_list: ini::list_setting(value), ..m }, ini::FieldView::Stored)
    } else if is_record(key) {
        (
            m,
            ini::FieldView::TypeErr(
                "key "@ + text::debug_text(key) + " is a struct field, use ["@ + key + "] section"@,
            ),
        )
    } else if key == "station"@ {
        (
            m,
            ini::FieldView::TypeErr(
                "key "@ + text::debug_text(key) + " is a slice-of-struct, use ["@ + key
                    + " \"name\"] subsections"@,
            ),
        )
    } else {
        (m, ini::FieldView::Unknown)
    }
}

/// Storing a setting in a section.
pub open spec fn config_section(
    m: ConfigView,
    section: Seq<char>,
    key: Seq<char>,
    value: Seq<char>,
) -> (ConfigView, ini::FieldView) {
    let stored = ini::FieldView::Stored;
    if section == "listen"@ {
        if key == "addr"@ {
            (ConfigView { listen: ListenView { addr: value, ..m.listen }, ..m }, stored)
        } else if key == "port"@ {
            put_int(
                m,
                key,
                value,
                |n: int| ConfigView { listen: ListenView { port: n, ..m.listen }, ..m },
            )
        } else {
            (m, ini::FieldView::Unknown)
        }
    } else if section == "hass"@ {
        if key == "ipaddr"@ {
            (ConfigView { hass: HassView { ipaddr: value, ..m.hass }, ..m }, stored)
        } else if key == "port"@ {
            put_int(
                m,
                key,
                value,
                |n: int| ConfigView { hass: HassView { port: n, ..m.hass }, ..m },
            )
        } else if key == "api"@ {
            (ConfigView { hass: HassView { api: value, ..m.hass }, ..m }, stored)
        } else if key == "token"@ {
            (ConfigView { hass: HassView { token: value, ..m.hass }, ..m }, stored)
        } else {
            (m, ini::FieldView::Unknown)
        }
    } else if section == "video"@ {
        if key == "forward"@ {
            put_bool(
                m,
                key,
                value,
                |b: bool| ConfigView { video: VideoView { forward: b, ..m.video }, ..m },
            )
        } else if key == "format"@ {
            (ConfigView { video: VideoView { format: value, ..m.video }, ..m }, stored)
        } else if key == "cache_path"@ {
            (ConfigView { video: VideoView { cache_path: value, ..m.video }, ..m }, stored)
        } else {
            (m, ini::FieldView::Unknown)
        }
    } else if section == "automation"@ {
        if key == "auto_unlock"@ {
            put_bool(
                m,
                key,
                value,
                |b: bool|
                    ConfigView { automation: Automation { auto_unlock: b, ..m.automation }, ..m },
            )
        } else if key == "auto_hangup"@ {
            put_bool(
                m,
                key,
                value,
                |b: bool|
                    ConfigView { automation: Automation { auto_hangup: b, ..m.automation }, ..m },
            )
        } else {
            (m, ini::FieldView::Unknown)
        }
    } else {
        (m, ini::FieldView::Unknown)
    }
}

/// Storing a setting in the last station.
pub open spec fn config_subsection(
    m: ConfigView,
    section: Seq<char>,
    key: Seq<char>,
    value: Seq<char>,
) -> (ConfigView, ini::FieldView) {
    if section != "station"@ || m.stations.len() == 0 {
        (m, ini::FieldView::Unknown)
    } else {
        let at = m.stations.len() - 1;
        let last = m.stations[at];
        if key == "sip"@ {
            (
                ConfigView {
                    stations: m.stations.update(at, StationView { sip: value, ..last }),
                    ..m
                },
                ini::FieldView::Stored,
            )
        } else if key == "rtsp_url"@ {
            (
                ConfigView {
                    stations: m.stations.update(at, StationView { rtsp_url: value, ..last }),
                    ..m
                },
                ini::FieldView::Stored,
            )
        } else {
            (m, ini::FieldView::Unknown)
        }
    }
}

/// A setting that is not known or has a value of the wrong kind changes nothing.
pub proof fn law_refused_settings_change_nothing(
    m: ConfigView,
    section: Seq<char>,
    key: Seq<char>,
    value: Seq<char>,
)
    ensures
        config_top(m, key, value).1 !is Stored ==> config_top(m, key, value).0 == m,
        config_section(m, section, key, value).1 !is Stored ==> config_section(
            m,
            section,
            key,
            value,
        ).0 == m,
        config_subsection(m, section, key, value).1 !is Stored ==> config_subsection(
            m,
            section,
            key,
            value,
        ).0 == m,
{
}

impl IniSink for Config {
    type Model = ConfigView;

    open spec fn model(&self) -> ConfigView {
        self@
    }

    open spec fn top_step(m: ConfigView, key: Seq<char>, value: Seq<char>) -> (
        ConfigView,
        ini::FieldView,
    ) {
        config_top(m, key, value)
    }

    open spec fn has_section(m: ConfigView, section: Seq<char>) -> bool {
        section == "sip"@ || section == "iface"@ || section == "iface_list"@ || section
            == "station"@ || is_record(section)
    }

    open spec fn has_struct(m: ConfigView, section: Seq<char>) -> bool {
        is_record(section)
    }

    open spec fn has_slice(m: ConfigView, section: Seq<char>) -> bool {
        section == "station"@
    }

    open spec fn section_step(
        m: ConfigView,
        section: Seq<char>,
        key: Seq<char>,
        value: Seq<char>,
    ) -> (ConfigView, ini::FieldView) {
        config_section(m, section, key, value)
    }

    open spec fn slice_len(m: ConfigView, section: Seq<char>) -> nat {
        if section == "station"@ {
            m.stations.len()
        } else {
            0
        }
    }

    open spec fn append_step(m: ConfigView, section: Seq<char>) -> ConfigView {
        if section == "station"@ {
            ConfigView { stations: m.stations.push(empty_station()), ..m }
        } else {
            m
        }
    }

    open spec fn subsection_step(
        m: ConfigView,
        section: Seq<char>,
        key: Seq<char>,
        value: Seq<char>,
    ) -> (ConfigView, ini::FieldView) {
        config_subsection(m, section, key, value)
    }

    fn set_top(&mut self, key: &str, value: &str) -> (r: FieldOutcome) {
        if str_eq(key, "sip") {
            self.sip = value.to_owned();
            return FieldOutcome::Stored;
        }
        if str_eq(key, "iface") {
            self.iface = value.to_owned();
            return FieldOutcome::Stored;
        }
        if str_eq(key, "iface_list") {
            self.iface_list = conv_string_array(value);
            return FieldOutcome::Stored;
        }
        if str_eq(key, "listen") || str_eq(key, "hass") || str_eq(key, "video") || str_eq(
            key,
            "automation",
        ) {
            let mut m = "key ".to_owned();
            m.append(debug_string(key).as_str());
            m.append(" is a struct field, use [");
            m.append(key);
            m.append("] section");
            return FieldOutcome::TypeErr(m);
        }
        if str_eq(key, "station") {
            let mut m = "key ".to_owned();
            m.append(debug_string(key).as_str());
            m.append(" is a slice-of-struct, use [");
            m.append(key);
            m.append(" \"name\"] subsections");
            return FieldOutcome::TypeErr(m);
        }
        FieldOutcome::Unknown
    }

    fn section_known(&self, section: &str) -> (r: bool) {
        str_eq(section, "sip") || str_eq(section, "iface") || str_eq(section, "iface_list")
            || str_eq(section, "listen") || str_eq(section, "station") || str_eq(section, "hass")
            || str_eq(section, "video") || str_eq(section, "automation")
    }

    fn section_is_struct(&self, section: &str) -> (r: bool) {
        str_eq(section, "listen") || str_eq(section, "hass") || str_eq(section, "video") || str_eq(
            section,
            "automation",
        )
    }

    fn section_is_slice(&self, section: &str) -> (r: bool) {
        str_eq(section, "station")
    }

    fn set_section(&mut self, section: &str, key: &str, value: &str) -> (r: FieldOutcome) {
        if str_eq(section, "listen") {
            if str_eq(key, "addr") {
                self.listen.addr = value.to_owned();
                return FieldOutcome::Stored;
            }
            if str_eq(key, "port") {
                match conv_int(value, key) {
                    Ok(n) => {
                        self.listen.port = n;
                    },
                    Err(m) => return FieldOutcome::TypeErr(m),
                }
                return FieldOutcome::Stored;
            }
        } else if str_eq(section, "hass") {
            if str_eq(key, "ipaddr") {
                self.hass.ipaddr = value.to_owned();
                return FieldOutcome::Stored;
            }
            if str_eq(key, "port") {
                match conv_int(value, key) {
                    Ok(n) => {
                        self.hass.port = n;
                    },
                    Err(m) => return FieldOutcome::TypeErr(m),
                }
                return FieldOutcome::Stored;
            }
            if str_eq(key, "api") {
                self.hass.api = value.to_owned();
                return FieldOutcome::Stored;
            }
            if str_eq(key, "token") {
                self.hass.token = value.to_owned();
                return FieldOutcome::Stored;
            }
        } else if str_eq(section, "video") {
            if str_eq(key, "forward") {
                match conv_bool(value, key) {
                    Ok(b) => {
                        self.video.forward = b;
                    },
                    Err(m) => return FieldOutcome::TypeErr(m),
                }
                return FieldOutcome::Stored;
            }
            if str_eq(key, "format") {
                self.video.format = value.to_owned();
                return FieldOutcome::Stored;
            }
            if str_eq(key, "cache_path") {
                self.video.cache_path = value.to_owned();
                return FieldOutcome::Stored;
            }
        } else if str_eq(section, "automation") {
            if str_eq(key, "auto_unlock") {
                match conv_bool(value, key) {
                    Ok(b) => {
                        self.automation.auto_unlock = b;
                    },
                    Err(m) => return FieldOutcome::TypeErr(m),
                }
                return FieldOutcome::Stored;
            }
            if str_eq(key, "auto_hangup") {
                match conv_bool(value, key) {
                    Ok(b) => {
                        self.automation.auto_hangup = b;
                    },
                    Err(m) => return FieldOutcome::TypeErr(m),
                }
                return FieldOutcome::Stored;
            }
        }
        FieldOutcome::Unknown
    }

    fn subsection_len(&self, section: &str) -> (r: usize) {
        if str_eq(section, "station") {
            self.stations.len()
        } else {
            0
        }
    }

    fn append_subsection(&mut self, section: &str) {
        if str_eq(section, "station") {
            self.stations.push(Station { sip: String::new(), rtsp_url: String::new() });
            assert(station_views(self.stations@) =~= station_views(old(self).stations@).push(
                empty_station(),
            ));
        }
    }

    fn set_subsection(&mut self, section: &str, key: &str, value: &str) -> (r: FieldOutcome) {
        if !str_eq(section, "station") || self.stations.len() == 0 {
            return FieldOutcome::Unknown;
        }
        let ghost before = station_views(self.stations@);
        let at: usize = self.stations.len() - 1;
        if str_eq(key, "sip") {
            let rtsp_url = self.stations[at].rtsp_url.clone();
            self.stations.set(at, Station { sip: value.to_owned(), rtsp_url });
            assert(station_views(self.stations@) =~= before.update(
                at as int,
                StationView { sip: value@, ..before[at as int] },
            ));
            return FieldOutcome::Stored;
        }
        if str_eq(key, "rtsp_url") {
            let sip = self.stations[at].sip.clone();
            self.stations.set(at, Station { sip, rtsp_url: value.to_owned() });
            assert(station_views(self.stations@) =~= before.update(
                at as int,
                StationView { rtsp_url: value@, ..before[at as int] },
            ));
            return FieldOutcome::Stored;
        }
        FieldOutcome::Unknown
    }
}

// ---------------------------------------------------------------------------
// Notes
// ---------------------------------------------------------------------------

impl Config {
    /// The interfaces to listen on: those that are configured, else the members of the bridge.
    pub fn resolve_iface_list(&self, members: Result<Vec<String>, String>) -> (r: Result<
        Vec<String>,
        String,
    >)
        ensures
            self@.iface_list.len() > 0 ==> (r matches Ok(l) && text::string_views(l@)
                == self@.iface_list),
            self@.iface_list.len() == 0 ==> r == members,
    {
        if self.iface_list.len() == 0 {
            return members;
        }
        Ok(text::copy_strings(&self.iface_list))
    }

    /// Settings that were filled in with defaults.
    pub fn missing_fields(&self) -> (r: &[String])
        ensures
            text::string_views(r@) == self@.missing,
    {
        self.missing_fields.as_slice()
    }

    /// Names in the file that are no longer used.
    pub fn deprecated_fields(&self) -> (r: &[String])
        ensures
            text::string_views(r@) == self@.deprecated,
    {
        self.deprecated_fields.as_slice()
    }

    /// Warnings about unknown names in the file.
    pub fn parser_warnings(&self) -> (r: &[String])
        ensures
            text::string_views(r@) == self@.warnings,
    {
        self.parser_warnings.as_slice()
    }

    /// Replaces the warnings.
    pub fn set_parser_warnings(&mut self, w: Vec<String>)
        ensures
            final(self)@ == (ConfigView { warnings: text::string_views(w@), ..old(self)@ }),
    {
        self.parser_warnings = w;
    }
}

// ---------------------------------------------------------------------------
// Defaults
// ---------------------------------------------------------------------------

/// The configuration with defaults in place of what is not set. Of the settings filled in,
/// the interface, the port of the server and the video format are noted.
pub open spec fn with_defaults(m: ConfigView) -> ConfigView {
    let no_iface = m.iface.len() == 0;
    let no_port = m.hass.port == 0;
    let no_format = m.video.format.len() == 0;
    let noted = Seq::<Seq<char>>::empty();
    let noted = if no_iface {
        noted.push("iface"@)
    } else {
        noted
    };
    let noted = if no_port {
        noted.push("hass.port"@)
    } else {
        noted
    };
    let noted = if no_format {
        noted.push("video.format"@)
    } else {
        noted
    };
    ConfigView {
        iface: if no_iface {
            DEFAULT_IFACE@
        } else {
            m.iface
        },
        listen: ListenView {
            addr: if m.listen.addr.len() == 0 {
                DEFAULT_LISTEN_ADDR@
            } else {
                m.listen.addr
            },
            port: if m.listen.port == 0 {
                DEFAULT_LISTEN_PORT as int
            } else {
                m.listen.port
            },
        },
        hass: HassView {
            port: if no_port {
                DEFAULT_HASS_PORT as int
            } else {
                m.hass.port
            },
            ..m.hass
        },
        video: VideoView {
            format: if no_format {
                "flv"@
            } else {
                m.video.format
            },
            ..m.video
        },
        missing: noted,
        ..m
    }
}

/// A configuration that has its defaults needs no further ones.
pub proof fn law_defaults_are_complete(m: ConfigView)
    ensures
        with_defaults(with_defaults(m)) == (ConfigView {
            missing: Seq::empty(),
            ..with_defaults(m)
        }),
{
    reveal_strlit("eth0.1");
    reveal_strlit("0.0.0.0");
    reveal_strlit("flv");
    assert(DEFAULT_IFACE@.len() == 6);
    assert(DEFAULT_LISTEN_ADDR@.len() == 7);
}

/// Appends a string to a list of strings.
fn note(list: &mut Vec<String>, name: &str)
    ensures
        text::string_views(final(list)@) == text::string_views(old(list)@).push(name@),
{
    list.push(name.to_owned());
    assert(text::string_views(list@) =~= text::string_views(old(list)@).push(name@));
}

impl Config {
    /// Fills in the defaults and notes what was missing.
    pub fn apply_defaults(&mut self)
        ensures
            final(self)@ == with_defaults(old(self)@),
    {
        self.missing_fields = Vec::new();
        assert(text::string_views(self.missing_fields@) =~= Seq::empty());
        if self.iface.as_str().is_empty() {
            self.iface = DEFAULT_IFACE.to_owned();
            note(&mut self.missing_fields, "iface");
        }
        if self.listen.addr.as_str().is_empty() {
            self.listen.addr = DEFAULT_LISTEN_ADDR.to_owned();
        }
        if self.listen.port == 0 {
            self.listen.port = DEFAULT_LISTEN_PORT;
        }
        if self.hass.port == 0 {
            self.hass.port = DEFAULT_HASS_PORT;
            note(&mut self.missing_fields, "hass.port");
        }
        if self.video.format.as_str().is_empty() {
            self.video.format = "flv".to_owned();
            note(&mut self.missing_fields, "video.format");
        }
    }
}

// ---------------------------------------------------------------------------
// Names no longer used
// ---------------------------------------------------------------------------

pub open spec fn is_deprecated(name: Seq<char>) -> bool {
    name == "brand"@ || name == "family"@ || name == "elev"@ || name == "notification"@
}

/// `s` up to its first `;` or `#`.
pub open spec fn before_comment(s: Seq<char>) -> Seq<char>
    decreases s.len(),
{
    if s.len() == 0 || s[0] == ';' || s[0] == '#' {
        Seq::empty()
    } else {
        seq![s[0]] + before_comment(s.drop_first())
    }
}

/// Position within the file while looking for old names: the current section, and what was
/// found, each name once.
pub struct OldNames {
    pub section: Seq<char>,
    pub found: Seq<Seq<char>>,
}

/// Notes `name` where it is an old one and not noted yet.
pub open spec fn note_old(found: Seq<Seq<char>>, name: Seq<char>) -> Seq<Seq<char>> {
    if is_deprecated(name) && !found.contains(name) {
        found.push(name)
    } else {
        found
    }
}

/// The name in a section header without its brackets and its subsection.
pub open spec fn header_name(s: Seq<char>) -> Seq<char> {
    let inner = text::trim(s.subrange(1, s.len() - 1));
    match text::find(inner, ' ') {
        Some(sp) => if sp > 0 {
            text::trim(inner.take(sp))
        } else {
            inner
        },
        None => inner,
    }
}

/// One line: a section header counts anywhere, a key only before the first section.
pub open spec fn old_names_line(st: OldNames, raw: Seq<char>) -> OldNames {
    let s = text::trim(before_comment(raw));
    if s.len() >= 3 && s[0] == '[' && s.last() == ']' {
        OldNames { section: header_name(s), found: note_old(st.found, header_name(s)) }
    } else if st.section.len() == 0 {
        match text::find(s, '=') {
            Some(eq) => if eq > 0 {
                OldNames { found: note_old(st.found, text::trim(s.take(eq))), ..st }
            } else {
                st
            },
            None => st,
        }
    } else {
        st
    }
}

/// All lines, one after the other.
pub open spec fn old_names_lines(lines: Seq<Seq<char>>) -> OldNames
    decreases lines.len(),
{
    if lines.len() == 0 {
        OldNames { section: Seq::empty(), found: Seq::empty() }
    } else {
        old_names_line(old_names_lines(lines.drop_last()), lines.last())
    }
}

/// The old names in a file, in the order in which they first occur.
pub open spec fn old_names(raw: Seq<char>) -> Seq<Seq<char>> {
    old_names_lines(text::split(raw, '\n')).found
}

/// Each old name is reported once, and nothing else is.
pub proof fn law_old_names_once(raw: Seq<char>)
    ensures
        old_names(raw).no_duplicates(),
        forall|i: int| 0 <= i < old_names(raw).len() ==> is_deprecated(#[trigger] old_names(raw)[i]),
{
    lemma_old_names(text::split(raw, '\n'));
}

proof fn lemma_old_names(lines: Seq<Seq<char>>)
    ensures
        ({
            let found = old_names_lines(lines).found;
            &&& found.no_duplicates()
            &&& forall|i: int| 0 <= i < found.len() ==> is_deprecated(#[trigger] found[i])
        }),
    decreases lines.len(),
{
    if lines.len() > 0 {
        lemma_old_names(lines.drop_last());
    }
}

proof fn lemma_before_comment(s: Seq<char>, i: int)
    requires
        0 <= i <= s.len(),
        forall|j: int| 0 <= j < i ==> s[j] != ';' && s[j] != '#',
        i < s.len() ==> s[i] == ';' || s[i] == '#',
    ensures
        before_comment(s) == s.take(i),
    decreases i,
{
    if i == 0 {
        assert(s.take(0) =~= Seq::empty());
    } else {
        lemma_before_comment(s.drop_first(), i - 1);
        assert(s.take(i) =~= seq![s[0]] + s.drop_first().take(i - 1));
    }
}

fn old_name(name: &[char]) -> (r: bool)
    ensures
        r == is_deprecated(name@),
{
    chars_eq(name, "brand") || chars_eq(name, "family") || chars_eq(name, "elev") || chars_eq(
        name,
        "notification",
    )
}

/// Adds `name` to `found` where it is an old one and not there yet.
fn add_old_name(found: &mut Vec<String>, name: &[char])
    ensures
        text::string_views(final(found)@) == note_old(text::string_views(old(found)@), name@),
{
    let ghost before = text::string_views(found@);
    if !old_name(name) {
        return;
    }
    let mut i: usize = 0;
    while i < found.len()
        invariant
            i <= found.len(),
            found@ == old(found)@,
            before == text::string_views(found@),
            forall|j: int| 0 <= j < i ==> (#[trigger] before[j]) != name@,
        decreases found.len() - i,
    {
        if chars_eq(name, found[i].as_str()) {
            assert(before[i as int] == name@);
            return;
        }
        assert(before[i as int] != name@);
        i += 1;
    }
    assert(!before.contains(name@));
    found.push(string_of(name));
    assert(text::string_views(found@) =~= before.push(name@));
}

fn cut_comment<'a>(cs: &'a [char]) -> (out: &'a [char])
    ensures
        out@ == before_comment(cs@),
{
    let mut i: usize = 0;
    while i < cs.len() && cs[i] != ';' && cs[i] != '#'
        invariant
            i <= cs.len(),
            forall|j: int| 0 <= j < i ==> cs@[j] != ';' && cs@[j] != '#',
        decreases cs.len() - i,
    {
        i += 1;
    }
    proof {
        lemma_before_comment(cs@, i as int);
    }
    let out = slice_subrange(cs, 0, i);
    assert(out@ =~= cs@.take(i as int));
    out
}

impl Config {
    /// Notes the names in `raw`, the text of the file, that are no longer used.
    pub fn detect_deprecated(&mut self, raw: &str)
        ensures
            final(self)@ == (ConfigView {
                deprecated: old(self)@.deprecated + old_names(raw@),
                ..old(self)@
            }),
    {
        let lines = split_chars(chars_of(raw).as_slice(), '\n');
        let ghost all = text::split(raw@, '\n');
        let mut found: Vec<String> = Vec::new();
        let mut in_section = false;
        let ghost mut st = old_names_lines(all.take(0));
        assert(text::string_views(found@) =~= st.found);
        let mut i: usize = 0;
        while i < lines.len()
            invariant
                i <= lines.len(),
                text::views(lines@) == all,
                st == old_names_lines(all.take(i as int)),
                text::string_views(found@) == st.found,
                in_section == (st.section.len() != 0),
            decreases lines.len() - i,
        {
            let ghost before = st;
            assert(all[i as int] == lines@[i as int]@);
            assert(all.take(i + 1).drop_last() =~= all.take(i as int));
            proof {
                st = old_names_lines(all.take(i + 1));
            }
            assert(st == old_names_line(before, lines@[i as int]@));
            let s = trim_chars(cut_comment(lines[i].as_slice()));
            if s.len() >= 3 && s[0] == '[' && s[s.len() - 1] == ']' {
                let inner = trim_chars(slice_subrange(s, 1, s.len() - 1));
                let name = match find_char(inner, ' ') {
                    Some(sp) => if sp > 0 {
                        assert(inner@.subrange(0, sp as int) =~= inner@.take(sp as int));
                        trim_chars(slice_subrange(inner, 0, sp))
                    } else {
                        inner
                    },
                    None => inner,
                };
                assert(name@ == header_name(s@));
                in_section = name.len() != 0;
                add_old_name(&mut found, name);
            } else if !in_section {
                match find_char(s, '=') {
                    Some(eq) => if eq > 0 {
                        assert(s@.subrange(0, eq as int) =~= s@.take(eq as int));
                        add_old_name(&mut found, trim_chars(slice_subrange(s, 0, eq)));
                    },
                    None => {},
                }
            }
            i += 1;
        }
        assert(all.take(i as int) =~= all);
        let ghost names = text::string_views(found@);
        let ghost before = text::string_views(self.deprecated_fields@);
        self.deprecated_fields.append(&mut found);
        assert(text::string_views(self.deprecated_fields@) =~= before + names);
    }
}

// ---------------------------------------------------------------------------
// Checks
// ---------------------------------------------------------------------------

pub open spec fn is_hex_digit(c: char) -> bool {
    ('0' <= c && c <= '9') || ('a' <= c && c <= 'f') || ('A' <= c && c <= 'F')
}

/// The first character that is no hex digit.
pub open spec fn first_non_hex(s: Seq<char>) -> Option<char>
    decreases s.len(),
{
    if s.len() == 0 {
        None
    } else if !is_hex_digit(s[0]) {
        Some(s[0])
    } else {
        first_non_hex(s.drop_first())
    }
}

/// What is wrong with the host of an address.
pub open spec fn ip_fault(ip: Seq<char>) -> Option<Seq<char>> {
    let parts = text::split(ip, '.');
    if exists|i: int| 0 <= i < parts.len() && crate::codec::octet_value(#[trigger] parts[i]) is None {
        Some("ip "@ + text::debug_text(ip) + " is not IPv4"@)
    } else if parts.len() != 4 {
        Some("ip "@ + text::debug_text(ip) + " is not IPv4 (need 4 octets)"@)
    } else {
        None
    }
}

/// Number of digits at the beginning of `s`.
pub open spec fn digit_run(s: Seq<char>) -> nat
    decreases s.len(),
{
    if s.len() == 0 || !text::is_digit(s[0]) {
        0
    } else {
        1 + digit_run(s.drop_first())
    }
}

/// What is wrong with the port of an address.
pub open spec fn port_fault(p: Seq<char>) -> Option<Seq<char>> {
    let n = digit_run(p) as int;
    let v = text::digits_value(p.take(n));
    if v > 65535 {
        Some("port "@ + text::debug_text(p) + " out of range"@)
    } else if n < p.len() {
        Some("port "@ + text::debug_text(p) + " not numeric"@)
    } else if v < 1 {
        Some("port "@ + text::debug_text(p) + " out of range"@)
    } else {
        None
    }
}

/// What is wrong with `<8 hex digits>@<IPv4>:<port>`, if anything is.
pub open spec fn uri_fault(u: Seq<char>) -> Option<Seq<char>> {
    match crate::codec::inner_position(text::find(u, '@'), u.len()) {
        None => Some("missing '@'"@),
        Some(at) => {
            let name = u.take(at);
            let host_port = u.skip(at + 1);
            if encode_utf8(name).len() != 8 {
                Some("name "@ + text::debug_text(name) + " must be 8 chars"@)
            } else if first_non_hex(name) is Some {
                Some(
                    "name "@ + text::debug_text(name) + " contains non-hex char "@
                        + text::debug_char_text(first_non_hex(name)->0),
                )
            } else {
                match crate::codec::inner_position(text::rfind(host_port, ':'), host_port.len()) {
                    None => Some("missing ':port'"@),
                    Some(colon) => {
                        let ip = host_port.take(colon);
                        if ip_fault(ip) is Some {
                            ip_fault(ip)
                        } else {
                            port_fault(host_port.skip(colon + 1))
                        }
                    },
                }
            }
        },
    }
}

proof fn lemma_digit_run(s: Seq<char>)
    ensures
        digit_run(s) <= s.len(),
        forall|j: int| 0 <= j < digit_run(s) ==> text::is_digit(#[trigger] s[j]),
        digit_run(s) < s.len() ==> !text::is_digit(s[digit_run(s) as int]),
    decreases s.len(),
{
    if s.len() > 0 && text::is_digit(s[0]) {
        let t = s.drop_first();
        lemma_digit_run(t);
        assert forall|j: int| 0 <= j < digit_run(s) implies text::is_digit(#[trigger] s[j]) by {
            if j > 0 {
                assert(s[j] == t[j - 1]);
            }
        }
    }
}

proof fn lemma_digits_grow(s: Seq<char>, i: int, n: int)
    requires
        0 <= i <= n <= s.len(),
        forall|j: int| 0 <= j < n ==> text::is_digit(#[trigger] s[j]),
    ensures
        0 <= text::digits_value(s.take(i)) <= text::digits_value(s.take(n)),
    decreases n,
{
    if n > 0 {
        assert(s.take(n).drop_last() =~= s.take(n - 1));
        assert(s.take(n).last() == s[n - 1]);
        assert(text::is_digit(s[n - 1]));
        if i < n {
            lemma_digits_grow(s, i, n - 1);
        } else {
            lemma_digits_grow(s, n - 1, n - 1);
        }
    }
}

fn quoted_message(head: &str, quoted: &[char], tail: &str) -> (out: String)
    ensures
        out@ == head@ + text::debug_text(quoted@) + tail@,
{
    let mut out = head.to_owned();
    out.append(debug_string(string_of(quoted).as_str()).as_str());
    out.append(tail);
    out
}

fn check_ip(ip: &[char]) -> (r: Result<(), String>)
    ensures
        match r {
            Ok(_) => ip_fault(ip@) is None,
            Err(m) => ip_fault(ip@) == Some(m@),
        },
{
    let parts = split_chars(ip, '.');
    let ghost p = text::split(ip@, '.');
    let mut i: usize = 0;
    while i < parts.len()
        invariant
            i <= parts.len(),
            text::views(parts@) == p,
            p == text::split(ip@, '.'),
            forall|j: int| 0 <= j < i ==> crate::codec::octet_value(#[trigger] p[j]) is Some,
        decreases parts.len() - i,
    {
        assert(p[i as int] == parts@[i as int]@);
        if parse_octet(parts[i].as_slice()).is_none() {
            assert(crate::codec::octet_value(p[i as int]) is None);
            return Err(quoted_message("ip ", ip, " is not IPv4"));
        }
        i += 1;
    }
    assert(parts@.len() == p.len());
    if parts.len() != 4 {
        return Err(quoted_message("ip ", ip, " is not IPv4 (need 4 octets)"));
    }
    Ok(())
}

fn check_port(p: &[char]) -> (r: Result<(), String>)
    ensures
        match r {
            Ok(_) => port_fault(p@) is None,
            Err(m) => port_fault(p@) == Some(m@),
        },
{
    let ghost n = digit_run(p@) as int;
    proof {
        lemma_digit_run(p@);
    }
    let mut port: u32 = 0;
    let mut i: usize = 0;
    assert(p@.take(0) =~= Seq::<char>::empty());
    while i < p.len()
        invariant
            i <= n <= p.len(),
            n == digit_run(p@),
            n < p.len() ==> !text::is_digit(p@[n]),
            forall|j: int| 0 <= j < n ==> text::is_digit(#[trigger] p@[j]),
            port <= 65535,
            port == text::digits_value(p@.take(i as int)),
        decreases p.len() - i,
    {
        let c = p[i];
        if c < '0' || c > '9' {
            assert(!text::is_digit(p@[i as int]));
            return Err(quoted_message("port ", p, " not numeric"));
        }
        assert(text::is_digit(p@[i as int]));
        assert(i < n);
        assert(p@.take(i + 1).drop_last() =~= p@.take(i as int));
        assert(p@.take(i + 1).last() == c);
        port = port * 10 + (c as u32 - 48);
        i += 1;
        if port > 65535 {
            proof {
                lemma_digits_grow(p@, i as int, n);
            }
            return Err(quoted_message("port ", p, " out of range"));
        }
    }
    if port < 1 {
        return Err(quoted_message("port ", p, " out of range"));
    }
    Ok(())
}

fn find_non_hex(cs: &[char]) -> (r: Option<char>)
    ensures
        r == first_non_hex(cs@),
{
    let mut i: usize = 0;
    assert(cs@.skip(0) =~= cs@);
    while i < cs.len()
        invariant
            i <= cs.len(),
            first_non_hex(cs@.skip(i as int)) == first_non_hex(cs@),
        decreases cs.len() - i,
    {
        let c = cs[i];
        assert(cs@.skip(i as int)[0] == c);
        assert(cs@.skip(i as int).drop_first() =~= cs@.skip(i + 1));
        if !(('0' <= c && c <= '9') || ('a' <= c && c <= 'f') || ('A' <= c && c <= 'F')) {
            return Some(c);
        }
        i += 1;
    }
    None
}

/// Checks `<8 hex digits>@<IPv4>:<port>`.
pub fn validate_uri(uri: &str) -> (r: Result<(), String>)
    ensures
        match r {
            Ok(_) => uri_fault(uri@) is None,
            Err(m) => uri_fault(uri@) == Some(m@),
        },
{
    let cs = chars_of(uri);
    let at: usize = match find_char(cs.as_slice(), '@') {
        Some(i) => i,
        None => return Err("missing '@'".to_owned()),
    };
    if at == 0 || at == cs.len() - 1 {
        return Err("missing '@'".to_owned());
    }
    let name = slice_subrange(cs.as_slice(), 0, at);
    let host_port = slice_subrange(cs.as_slice(), at + 1, cs.len());
    assert(name@ =~= uri@.take(at as int));
    assert(host_port@ =~= uri@.skip(at + 1));
    if string_of(name).as_str().as_bytes().len() != 8 {
        return Err(quoted_message("name ", name, " must be 8 chars"));
    }
    match find_non_hex(name) {
        Some(c) => {
            let mut m = quoted_message("name ", name, " contains non-hex char ");
            m.append(debug_char_string(c).as_str());
            return Err(m);
        },
        None => {},
    }
    let colon: usize = match rfind_char(host_port, ':') {
        Some(i) => i,
        None => return Err("missing ':port'".to_owned()),
    };
    if colon == 0 || colon == host_port.len() - 1 {
        return Err("missing ':port'".to_owned());
    }
    let ip = slice_subrange(host_port, 0, colon);
    let port = slice_subrange(host_port, colon + 1, host_port.len());
    assert(ip@ =~= host_port@.take(colon as int));
    assert(port@ =~= host_port@.skip(colon + 1));
    match check_ip(ip) {
        Ok(_) => check_port(port),
        Err(m) => Err(m),
    }
}

/// A refused setting.
pub open spec fn refused(field: Seq<char>, value: Seq<char>, want: Seq<char>) -> Option<FaultView> {
    Some(FaultView::Validation { field, value, want })
}

/// What is wrong with the stations from number `i` on.
pub open spec fn stations_fault(stations: Seq<StationView>, i: int) -> Option<FaultView>
    decreases stations.len() - i,
{
    if i < 0 || i >= stations.len() {
        None
    } else {
        let sip = stations[i].sip;
        let field = "stations["@ + text::dec(i as nat) + "].sip"@;
        if sip.len() == 0 {
            refused(field, Seq::empty(), "non-empty SIP URI"@)
        } else if uri_fault(sip) is Some {
            refused(field, sip, "valid SIP URI: "@ + uri_fault(sip)->0)
        } else {
            stations_fault(stations, i + 1)
        }
    }
}

/// The first thing that is wrong with a configuration.
pub open spec fn config_fault(m: ConfigView) -> Option<FaultView> {
    if m.sip.len() == 0 {
        refused("sip"@, Seq::empty(), "non-empty SIP URI like 12345678@10.0.0.20:18022"@)
    } else if uri_fault(m.sip) is Some {
        refused("sip"@, m.sip, "valid SIP URI: "@ + uri_fault(m.sip)->0)
    } else if m.stations.len() == 0 {
        refused("stations"@, "0"@, "at least one station entry"@)
    } else if stations_fault(m.stations, 0) is Some {
        stations_fault(m.stations, 0)
    } else if m.video.format != "flv"@ && m.video.format != "mjpeg"@ {
        refused("video.format"@, m.video.format, "\"flv\" or \"mjpeg\""@)
    } else {
        None
    }
}

fn invalid(field: &str, value: &str, want: &str) -> (e: ConfigError)
    ensures
        e@ == (FaultView::Validation { field: field@, value: value@, want: want@ }),
{
    ConfigError::Validation(
        ValidationError {
            field: field.to_owned(),
            value: value.to_owned(),
            want: want.to_owned(),
        },
    )
}

fn wanted_uri(fault: &str) -> (out: String)
    ensures
        out@ == "valid SIP URI: "@ + fault@,
{
    let mut out = "valid SIP URI: ".to_owned();
    out.append(fault);
    out
}

/// The result of a check as a fault.
pub open spec fn fault_of(r: Result<(), ConfigError>) -> Option<FaultView> {
    match r {
        Ok(_) => None,
        Err(e) => Some(e@),
    }
}

impl Config {
    /// Checks the addresses, that there is a station, and the video format.
    pub fn validate(&self) -> (r: Result<(), ConfigError>)
        ensures
            fault_of(r) == config_fault(self@),
    {
        let unset = String::new();
        if self.sip.as_str().is_empty() {
            return Err(
                invalid(
                    "sip",
                    unset.as_str(),
                    "non-empty SIP URI like 12345678@10.0.0.20:18022",
                ),
            );
        }
        match validate_uri(self.sip.as_str()) {
            Err(e) => {
                return Err(invalid("sip", self.sip.as_str(), wanted_uri(e.as_str()).as_str()));
            },
            Ok(_) => {},
        }
        if self.stations.len() == 0 {
            return Err(invalid("stations", "0", "at least one station entry"));
        }
        let ghost all = self@.stations;
        let mut i: usize = 0;
        while i < self.stations.len()
            invariant
                i <= self.stations.len(),
                all == self@.stations,
                stations_fault(all, 0) == stations_fault(all, i as int),
                self.sip@.len() != 0,
                uri_fault(self.sip@) is None,
                all.len() != 0,
                unset@ == Seq::<char>::empty(),
            decreases self.stations.len() - i,
        {
            let s = &self.stations[i];
            assert(all[i as int] == s@);
            let mut field = "stations[".to_owned();
            text::push_dec(&mut field, i as u64);
            field.append("].sip");
            if s.sip.as_str().is_empty() {
                return Err(invalid(field.as_str(), unset.as_str(), "non-empty SIP URI"));
            }
            match validate_uri(s.sip.as_str()) {
                Err(e) => {
                    return Err(
                        invalid(
                            field.as_str(),
                            s.sip.as_str(),
                            wanted_uri(e.as_str()).as_str(),
                        ),
                    );
                },
                Ok(_) => {},
            }
            i += 1;
        }
        if !str_eq(self.video.format.as_str(), "flv") && !str_eq(
            self.video.format.as_str(),
            "mjpeg",
        ) {
            return Err(
                invalid(
                    "video.format",
                    self.video.format.as_str(),
                    "\"flv\" or \"mjpeg\"",
                ),
            );
        }
        Ok(())
    }
}

/// An address that passes the check of the configuration can be split, and its name is
/// eight hex digits.
pub proof fn law_checked_uri_splits(u: Seq<char>)
    requires
        uri_fault(u) is None,
    ensures
        crate::codec::uri_parts(u) is Ok,
        first_non_hex((crate::codec::uri_parts(u)->Ok_0).0) is None,
        encode_utf8((crate::codec::uri_parts(u)->Ok_0).0).len() == 8,
{
    let at = crate::codec::inner_position(text::find(u, '@'), u.len())->0;
    let host_port = u.skip(at + 1);
    let colon = crate::codec::inner_position(text::rfind(host_port, ':'), host_port.len())->0;
    let ip = host_port.take(colon);
    let p = text::split(ip, '.');
    assert(p.len() == 4);
    assert(crate::codec::octet_value(p[0]) is Some);
    assert(crate::codec::octet_value(p[1]) is Some);
    assert(crate::codec::octet_value(p[2]) is Some);
    assert(crate::codec::octet_value(p[3]) is Some);
    let port = host_port.skip(colon + 1);
    lemma_digit_run(port);
    assert(port.take(port.len() as int) =~= port);
    assert(port.len() > 0);
    assert(text::is_digit(port[0]));
    assert(text::all_digits(port));
}

/// What stands for the port in an address that can be split.
pub open spec fn port_text(u: Seq<char>) -> Seq<char> {
    let at = crate::codec::inner_position(text::find(u, '@'), u.len())->0;
    let host_port = u.skip(at + 1);
    host_port.skip(crate::codec::inner_position(text::rfind(host_port, ':'), host_port.len())->0 + 1)
}

/// An address that can be split, with eight hex digits as its name and nothing but digits as its
/// port, passes the check of the configuration.
pub proof fn law_split_uri_is_checked(u: Seq<char>)
    requires
        crate::codec::uri_parts(u) is Ok,
        first_non_hex((crate::codec::uri_parts(u)->Ok_0).0) is None,
        encode_utf8((crate::codec::uri_parts(u)->Ok_0).0).len() == 8,
        text::all_digits(port_text(u)),
    ensures
        uri_fault(u) is None,
{
    let port = port_text(u);
    lemma_digit_run(port);
    assert(text::is_digit(port[0]));
    if digit_run(port) < port.len() {
        assert(text::is_digit(port[digit_run(port) as int]));
    }
    assert(port.take(port.len() as int) =~= port);
}

/// In a configuration that passes the check, the own address and those of all stations can
/// be split.
pub proof fn law_checked_config_splits(m: ConfigView, i: int)
    requires
        config_fault(m) is None,
        0 <= i < m.stations.len(),
    ensures
        crate::codec::uri_parts(m.sip) is Ok,
        crate::codec::uri_parts(m.stations[i].sip) is Ok,
{
    law_checked_uri_splits(m.sip);
    lemma_station_checked(m.stations, 0, i);
    law_checked_uri_splits(m.stations[i].sip);
}

proof fn lemma_station_checked(stations: Seq<StationView>, from: int, i: int)
    requires
        0 <= from <= i < stations.len(),
        stations_fault(stations, from) is None,
    ensures
        uri_fault(stations[i].sip) is None,
    decreases i - from,
{
    if from < i {
        lemma_station_checked(stations, from + 1, i);
    }
}

// ---------------------------------------------------------------------------
// Loading
// ---------------------------------------------------------------------------

/// Why the bytes of a file could not be had.
pub enum ReadFailure {
    /// There is no such file.
    NotFound,
    /// Anything else, with its description.
    Other(String),
}

/// The configuration that the text of a file gives, or what is wrong with it.
pub open spec fn text_config(t: Seq<char>) -> Result<ConfigView, FaultView> {
    let (st, fault) = ini::file_step::<Config>(empty_config(), t);
    match fault {
        Some((line, msg)) => Err(FaultView::Parse { line: line as int, msg }),
        None => {
            let m = with_defaults(ConfigView { warnings: st.warnings, ..st.model });
            let m = ConfigView { deprecated: m.deprecated + old_names(t), ..m };
            match config_fault(m) {
                Some(f) => Err(f),
                None => Ok(m),
            }
        },
    }
}

/// What loading the file `path` gives, where reading it gave `read`.
pub open spec fn loaded(path: Seq<char>, read: Result<Vec<u8>, ReadFailure>) -> Result<
    ConfigView,
    FaultView,
> {
    match read {
        Err(ReadFailure::NotFound) => Err(FaultView::NotFound { path }),
        Err(ReadFailure::Other(msg)) => Err(FaultView::Read { path, msg: msg@ }),
        Ok(raw) => if !valid_utf8(raw@) {
            Err(
                FaultView::Read {
                    path,
                    msg: "config not valid UTF-8: "@ + text::utf8_error_text(raw@),
                },
            )
        } else {
            text_config(decode_utf8(raw@))
        },
    }
}

/// A configuration or an error, each by its view.
pub open spec fn config_view(r: Result<Config, ConfigError>) -> Result<ConfigView, FaultView> {
    match r {
        Ok(c) => Ok(c@),
        Err(e) => Err(e@),
    }
}

/// Reads, completes and checks the configuration from the text of the file.
pub fn config_from_text(t: &str) -> (r: Result<Config, ConfigError>)
    ensures
        config_view(r) == text_config(t@),
{
    let mut cfg = Config::default();
    let warnings = match parse_ini(t, &mut cfg) {
        Ok(w) => w,
        Err(e) => return Err(e),
    };
    cfg.set_parser_warnings(warnings);
    cfg.apply_defaults();
    cfg.detect_deprecated(t);
    match cfg.validate() {
        Ok(_) => Ok(cfg),
        Err(e) => Err(e),
    }
}

/// Loads the configuration from what reading the file `path` gave.
pub fn load_config(path: &str, read: Result<Vec<u8>, ReadFailure>) -> (r: Result<
    Config,
    ConfigError,
>)
    ensures
        config_view(r) == loaded(path@, read),
{
    let raw = match read {
        Ok(raw) => raw,
        Err(ReadFailure::NotFound) => return Err(ConfigError::NotFound { path: path.to_owned() }),
        Err(ReadFailure::Other(msg)) => {
            return Err(ConfigError::Read { path: path.to_owned(), msg });
        },
    };
    match core::str::from_utf8(raw.as_slice()) {
        Ok(t) => {
            proof {
                encode_utf8_decode_utf8(t@);
            }
            config_from_text(t)
        },
        Err(_) => {
            let mut msg = "config not valid UTF-8: ".to_owned();
            msg.append(text::utf8_error_string(raw.as_slice()).as_str());
            Err(ConfigError::Read { path: path.to_owned(), msg })
        },
    }
}

} // verus!
