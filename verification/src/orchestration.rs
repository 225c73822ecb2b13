//! How the parts of the daemon are put together.

use vstd::prelude::*;
use vstd::string::*;
use vstd::utf8::*;

use crate::automation_state;
use crate::automation_state::State;
use crate::codec;
use crate::codec::result;
use crate::codec::{decode_bcd, parse_ipv4_chars, parse_uri, push_ip};
use crate::config;
use crate::config::Config;
use crate::control::endpoints;
use crate::control::endpoints::Push;
use crate::listen18022;
use crate::listen18022::{format_log, infer_direction, same_ip, DetectedFrame};
use crate::listen6672;
use crate::listen6672::{build_number_query_response, Frame};
use crate::text;
use crate::text::{chars_of, debug_string, str_eq};
use crate::text_map::TextMap;
use crate::unlock;
use crate::unlock::{UnlockOutcome, WireKind};

verus! {

// ---------------------------------------------------------------------------
// Flags at start
// ---------------------------------------------------------------------------

/// The state file as it was read: its contents, nothing where it does not exist, or why it could
/// not be read.
pub type StateRead = Result<Option<Vec<u8>>, String>;

/// What the state file says, or what is wrong with it.
pub open spec fn file_state(path: Seq<char>, read: StateRead) -> Result<Option<State>, Seq<char>> {
    match read {
        Ok(Some(raw)) => match automation_state::state_value(raw@) {
            Some(st) => Ok(Some(st)),
            None => Err("state file present but unparseable"@),
        },
        Ok(None) => Ok(None),
        Err(e) => Err("read "@ + path + ": "@ + e@),
    }
}

/// What the state file at `path` says. That it does not exist is no error.
pub fn load_state_file(path: &str, read: &StateRead) -> (r: Result<Option<State>, String>)
    ensures
        match r {
            Ok(st) => file_state(path@, *read) == Ok::<_, Seq<char>>(st),
            Err(m) => file_state(path@, *read) == Err::<Option<State>, _>(m@),
        },
{
    match read {
        Ok(Some(raw)) => match automation_state::parse(raw.as_slice()) {
            Ok(st) => Ok(Some(st)),
            Err(_) => Err("state file present but unparseable".to_owned()),
        },
        Ok(None) => Ok(None),
        Err(e) => {
            let mut m = "read ".to_owned();
            m.append(path);
            m.append(": ");
            m.append(e.as_str());
            Err(m)
        },
    }
}

/// The flags at start, where they come from, and what is logged about it.
#[derive(Debug)]
pub struct StartFlags {
    pub auto_unlock: bool,
    pub auto_hangup: bool,
    pub source: &'static str,
    pub log: Vec<String>,
}

/// The lines logged about the flags at start.
pub open spec fn flag_lines(st: Result<Option<State>, Seq<char>>, env_set: bool) -> Seq<Seq<char>> {
    let broken = match st {
        Err(m) => seq![
            "automation.state load failed, falling back to config defaults: "@ + m,
        ],
        _ => Seq::<Seq<char>>::empty(),
    };
    if (st matches Ok(Some(_))) || !env_set {
        broken
    } else {
        broken.push(
            "DOORACCESS_EXPERIMENTAL_AUTO_* set but ignored (config.ini present; flags from [automation])"@,
        )
    }
}

/// The flags at start: those of the state file where it can be read, else those of the
/// configuration. `env_set` says that the environment asks for flags, which has no effect.
pub fn load_automation_flags(
    state_path: &str,
    read: &StateRead,
    cfg: &Config,
    env_set: bool,
) -> (f: StartFlags)
    ensures
        match file_state(state_path@, *read) {
            Ok(Some(st)) => f.auto_unlock == st.auto_unlock && f.auto_hangup == st.auto_hangup
                && f.source@ == "state"@,
            _ => f.auto_unlock == cfg@.automation.auto_unlock && f.auto_hangup
                == cfg@.automation.auto_hangup && f.source@ == "config"@,
        },
        text::string_views(f.log@) == flag_lines(file_state(state_path@, *read), env_set),
{
    let mut log: Vec<String> = Vec::new();
    match load_state_file(state_path, read) {
        Ok(Some(st)) => {
            assert(text::string_views(log@) =~= Seq::<Seq<char>>::empty());
            return StartFlags {
                auto_unlock: st.auto_unlock,
                auto_hangup: st.auto_hangup,
                source: "state",
                log,
            };
        },
        Ok(None) => {},
        Err(m) => {
            let mut line = "automation.state load failed, falling back to config defaults: ".to_owned();
            line.append(m.as_str());
            log.push(line);
        },
    }
    if env_set {
        log.push(
            "DOORACCESS_EXPERIMENTAL_AUTO_* set but ignored (config.ini present; flags from [automation])".to_owned(),
        );
    }
    assert(text::string_views(log@) =~= flag_lines(file_state(state_path@, *read), env_set));
    StartFlags {
        auto_unlock: cfg.automation.auto_unlock,
        auto_hangup: cfg.automation.auto_hangup,
        source: "config",
        log,
    }
}

/// A damaged state file is dropped as a whole: neither of its flags is used, and the line logged
/// says that the configuration is used instead.
pub proof fn law_damaged_state_is_dropped(path: Seq<char>, raw: Vec<u8>, env_set: bool)
    requires
        automation_state::state_value(raw@) is None,
    ensures
        !(file_state(path, Ok(Some(raw))) matches Ok(Some(_))),
        flag_lines(file_state(path, Ok(Some(raw))), env_set).len() > 0,
{
}

/// Flags that were saved are those of the next start, and nothing is logged about them.
pub proof fn law_flags_survive_restart(path: Seq<char>, st: State, raw: Vec<u8>, env_set: bool)
    requires
        raw@ == encode_utf8(automation_state::state_text(st)),
    ensures
        file_state(path, Ok(Some(raw))) == Ok::<Option<State>, Seq<char>>(Some(st)),
        flag_lines(file_state(path, Ok(Some(raw))), env_set).len() == 0,
{
    automation_state::law_parse_after_render(st);
}

// ---------------------------------------------------------------------------
// Addresses
// ---------------------------------------------------------------------------

/// An address in dotted form.
pub fn ipv4_str(ip: [u8; 4]) -> (out: String)
    ensures
        out@ == codec::ip_text(ip@),
{
    let mut out = String::new();
    push_ip(&mut out, ip);
    assert(out@ =~= codec::ip_text(ip@));
    out
}

/// Reads an address in dotted form.
pub fn parse_ipv4(s: &str) -> (r: Option<[u8; 4]>)
    ensures
        match r {
            Some(a) => codec::ipv4_value(s@) == Some(a@),
            None => codec::ipv4_value(s@) is None,
        },
{
    parse_ipv4_chars(chars_of(s).as_slice())
}

/// The addresses of stations with the URIs they belong to.
pub type StationMap = TextMap<String>;

/// The addresses and URIs of the first `n` stations; a later station with the same address wins,
/// and one whose URI cannot be read does not count.
pub open spec fn station_map(stations: Seq<config::StationView>, n: nat) -> Map<
    Seq<char>,
    Seq<char>,
>
    decreases n,
{
    if n == 0 {
        Map::empty()
    } else {
        let before = station_map(stations, (n - 1) as nat);
        match codec::uri_parts(stations[n - 1].sip) {
            Ok((_, ip, _)) => before.insert(ip, stations[n - 1].sip),
            Err(_) => before,
        }
    }
}

/// A station map with its values as sequences.
pub open spec fn map_texts(m: Map<Seq<char>, String>) -> Map<Seq<char>, Seq<char>> {
    m.map_values(|s: String| s@)
}

/// The addresses of the configured stations with their URIs.
pub fn parse_stations_to_ip_map(cfg: &Config) -> (m: StationMap)
    ensures
        map_texts(m@) == station_map(cfg@.stations, cfg@.stations.len()),
{
    let mut m: StationMap = TextMap::new();
    let mut i: usize = 0;
    assert(map_texts(m@) =~= station_map(cfg@.stations, 0));
    while i < cfg.stations.len()
        invariant
            i <= cfg.stations@.len(),
            map_texts(m@) == station_map(cfg@.stations, i as nat),
        decreases cfg.stations@.len() - i,
    {
        assert(cfg@.stations[i as int].sip == cfg.stations@[i as int].sip@);
        let ghost before = m@;
        if let Ok((_, ip, _)) = parse_uri(cfg.stations[i].sip.as_str()) {
            let sip = cfg.stations[i].sip.clone();
            m.insert(ip, sip);
            assert(map_texts(m@) =~= map_texts(before).insert(ip@, sip@));
        }
        i = i + 1;
    }
    m
}

/// Every address in the map is one in dotted form, and its URI reads back to it.
pub proof fn law_stations_by_their_address(
    stations: Seq<config::StationView>,
    n: nat,
    ip: Seq<char>,
)
    requires
        n <= stations.len(),
        station_map(stations, n).dom().contains(ip),
    ensures
        codec::ipv4_value(ip) is Some,
        codec::uri_parts(station_map(stations, n)[ip]) matches Ok((_, a, _)) && a == ip,
    decreases n,
{
    if n > 0 {
        let before = station_map(stations, (n - 1) as nat);
        if let Ok((_, a, _)) = codec::uri_parts(stations[n - 1].sip) {
            if a != ip {
                assert(before.dom().contains(ip));
                law_stations_by_their_address(stations, (n - 1) as nat, ip);
            }
        } else {
            law_stations_by_their_address(stations, (n - 1) as nat, ip);
        }
    }
}

/// Every URI in the map is that of a configured station.
pub proof fn lemma_station_uri(stations: Seq<config::StationView>, n: nat, ip: Seq<char>)
    requires
        n <= stations.len(),
        station_map(stations, n).dom().contains(ip),
    ensures
        exists|i: int|
            0 <= i < n && (#[trigger] stations[i]).sip == station_map(stations, n)[ip],
    decreases n,
{
    if n > 0 {
        let before = station_map(stations, (n - 1) as nat);
        if station_map(stations, n)[ip] == stations[n - 1].sip {
        } else {
            assert(before.dom().contains(ip));
            lemma_station_uri(stations, (n - 1) as nat, ip);
        }
    }
}

// ---------------------------------------------------------------------------
// Rings
// ---------------------------------------------------------------------------

/// What is needed to judge frames on port 18022.
#[derive(Debug)]
pub struct RingWatch {
    /// The number of the indoor station, or nothing.
    pub indoor_name: String,
    pub indoor_ip: Option<[u8; 4]>,
    pub daemon_ip: Option<[u8; 4]>,
    pub outdoor_by_ip: StationMap,
    pub outdoor_ips: Vec<[u8; 4]>,
    /// The URI of the indoor station.
    pub sip: String,
}

/// The number and address in the URI of the indoor station.
pub open spec fn indoor_parts(sip: Seq<char>) -> (Seq<char>, Option<Seq<u8>>) {
    match codec::uri_parts(sip) {
        Ok((name, ip, _)) => (name, codec::ipv4_value(ip)),
        Err(_) => (""@, None),
    }
}

/// An optional address as a sequence.
pub open spec fn ip_view(ip: Option<[u8; 4]>) -> Option<Seq<u8>> {
    match ip {
        Some(a) => Some(a@),
        None => None,
    }
}

impl RingWatch {
    /// What the configuration `cfg` asks for.
    pub open spec fn fits(&self, cfg: config::ConfigView) -> bool {
        let stations = station_map(cfg.stations, cfg.stations.len());
        &&& self.sip@ == cfg.sip
        &&& self.indoor_name@ == indoor_parts(cfg.sip).0
        &&& ip_view(self.indoor_ip) == indoor_parts(cfg.sip).1
        &&& map_texts(self.outdoor_by_ip@) == stations
        &&& forall|ip: Seq<u8>| #[trigger]
            listen18022::listed(self.outdoor_ips@, ip) <==> is_station(stations, ip)
    }
}

/// Whether one of the addresses in the map is `ip`.
pub open spec fn is_station(stations: Map<Seq<char>, Seq<char>>, ip: Seq<u8>) -> bool {
    exists|k: Seq<char>| #[trigger]
        stations.dom().contains(k) && codec::ipv4_value(k) == Some(ip)
}

/// Prepares to judge frames, where there are interfaces to listen on. `daemon_ip` is the address
/// of the configured interface, where it has one.
pub fn build_listen18022(cfg: &Config, slaves: &[String], daemon_ip: Option<[u8; 4]>) -> (r: Option<
    RingWatch,
>)
    ensures
        match r {
            Some(w) => slaves@.len() > 0 && w.fits(cfg@) && w.daemon_ip == daemon_ip,
            None => slaves@.len() == 0,
        },
{
    if slaves.len() == 0 {
        return None;
    }
    let (indoor_name, indoor_ip) = match parse_uri(cfg.sip.as_str()) {
        Ok((name, ip, _)) => (name, parse_ipv4(ip.as_str())),
        Err(_) => ("".to_owned(), None),
    };
    let outdoor_by_ip = parse_stations_to_ip_map(cfg);
    let ghost stations = map_texts(outdoor_by_ip@);
    let mut outdoor_ips: Vec<[u8; 4]> = Vec::new();
    let n: usize = outdoor_by_ip.len();
    let mut i: usize = 0;
    while i < n
        invariant
            i <= n == outdoor_by_ip.keys().len(),
            forall|ip: Seq<u8>| #[trigger]
                listen18022::listed(outdoor_ips@, ip) <==> exists|j: int|
                    0 <= j < i && codec::ipv4_value(#[trigger] outdoor_by_ip.keys()[j]) == Some(ip),
        decreases n - i,
    {
        let ghost before = outdoor_ips@;
        let ghost key = outdoor_by_ip.keys()[i as int];
        if let Some(a) = parse_ipv4(outdoor_by_ip.key_at(i).as_str()) {
            outdoor_ips.push(a);
            proof {
                lemma_listed_push(before, a);
                assert(outdoor_ips@ =~= before.push(a));
            }
        }
        proof {
            assert forall|ip: Seq<u8>| #[trigger]
                listen18022::listed(outdoor_ips@, ip) <==> exists|j: int|
                    0 <= j < i + 1 && codec::ipv4_value(#[trigger] outdoor_by_ip.keys()[j]) == Some(
                        ip,
                    ) by {
                assert(listen18022::listed(before, ip) <==> exists|j: int|
                    0 <= j < i && codec::ipv4_value(#[trigger] outdoor_by_ip.keys()[j]) == Some(
                        ip,
                    ));
                if listen18022::listed(outdoor_ips@, ip) {
                    if listen18022::listed(before, ip) {
                        let j = choose|j: int|
                            0 <= j < i && codec::ipv4_value(#[trigger] outdoor_by_ip.keys()[j])
                                == Some(ip);
                        assert(codec::ipv4_value(outdoor_by_ip.keys()[j]) == Some(ip));
                    } else {
                        assert(codec::ipv4_value(outdoor_by_ip.keys()[i as int]) == Some(ip));
                    }
                }
            }
        }
        i = i + 1;
    }
    let w = RingWatch {
        indoor_name,
        indoor_ip,
        daemon_ip,
        outdoor_by_ip,
        outdoor_ips,
        sip: cfg.sip.clone(),
    };
    proof {
        assert forall|ip: Seq<u8>| #[trigger]
            listen18022::listed(w.outdoor_ips@, ip) <==> is_station(stations, ip) by {
            if listen18022::listed(w.outdoor_ips@, ip) {
                let j = choose|j: int|
                    0 <= j < n && codec::ipv4_value(#[trigger] outdoor_by_ip.keys()[j]) == Some(ip);
                let k = outdoor_by_ip.keys()[j];
                assert(outdoor_by_ip@.dom().contains(k));
                assert(stations.dom().contains(k));
            }
            if is_station(stations, ip) {
                let k = choose|k: Seq<char>| #[trigger]
                    stations.dom().contains(k) && codec::ipv4_value(k) == Some(ip);
                assert(outdoor_by_ip@.dom().contains(k));
                let j = choose|j: int|
                    0 <= j < outdoor_by_ip.keys().len() && #[trigger] outdoor_by_ip.keys()[j] == k;
                assert(codec::ipv4_value(outdoor_by_ip.keys()[j]) == Some(ip));
            }
        }
    }
    Some(w)
}

proof fn lemma_listed_push(ips: Seq<[u8; 4]>, a: [u8; 4])
    ensures
        forall|ip: Seq<u8>| #[trigger]
            listen18022::listed(ips.push(a), ip) <==> listen18022::listed(ips, ip) || a@ == ip,
{
    let after = ips.push(a);
    assert forall|ip: Seq<u8>| #[trigger]
        listen18022::listed(after, ip) <==> listen18022::listed(ips, ip) || a@ == ip by {
        if listen18022::listed(after, ip) {
            let i = choose|i: int| 0 <= i < after.len() && (#[trigger] after[i])@ == ip;
            if i < ips.len() {
                assert(ips[i]@ == ip);
            }
        }
        if listen18022::listed(ips, ip) {
            let i = choose|i: int| 0 <= i < ips.len() && (#[trigger] ips[i])@ == ip;
            assert(after[i]@ == ip);
        }
        if a@ == ip {
            assert(after[ips.len() as int]@ == ip);
        }
    }
}

/// What a frame leads to: its line for the log, another line where a ring is dropped, and the
/// event to report, where there is one.
#[derive(Debug)]
pub struct FrameSeen {
    pub line: String,
    pub dropped: Option<String>,
    pub push: Option<Push>,
}

/// The event that reports a ring at `from` for `to`.
pub open spec fn ring_push(from: Seq<char>, to: Seq<char>) -> endpoints::PushView {
    endpoints::PushView {
        event: "ring"@,
        fields: seq![("from"@, from), ("to"@, to), ("result"@, "0"@)],
    }
}

/// An event with the fields `from`, `to` and a result of 0.
pub fn result_push(event: &str, from: &str, to: &str) -> (p: Push)
    ensures
        p@ == (endpoints::PushView {
            event: event@,
            fields: seq![("from"@, from@), ("to"@, to@), ("result"@, "0"@)],
        }),
{
    let mut fields: Vec<(String, String)> = Vec::new();
    fields.push(("from".to_owned(), from.to_owned()));
    fields.push(("to".to_owned(), to.to_owned()));
    fields.push(("result".to_owned(), "0".to_owned()));
    let p = Push { event: event.to_owned(), fields };
    assert(p@.fields =~= seq![("from"@, from@), ("to"@, to@), ("result"@, "0"@)]);
    p
}

impl RingWatch {
    /// The URI that a ring for the address `dst` is reported for: the configured one, or one made
    /// up for another address.
    pub open spec fn room(&self, dst: Seq<u8>) -> Seq<char> {
        if self.indoor_ip is Some && (self.indoor_ip->0)@ != dst && self.indoor_name@.len() > 0 {
            self.indoor_name@ + "@"@ + codec::ip_text(dst) + ":18022"@
        } else {
            self.sip@
        }
    }

    /// Judges a frame: every frame is logged, and a ring at a configured station is reported.
    pub fn on_detect(&self, d: &DetectedFrame) -> (r: FrameSeen)
        ensures
            r.line@ == listen18022::frame_line(
                d.req,
                d.src_ip@,
                d.dst_ip@,
                d.body@,
                listen18022::direction_of(
                    d.src_ip@,
                    d.dst_ip@,
                    self.daemon_ip,
                    self.indoor_ip,
                    self.outdoor_ips@,
                ),
            ),
            ({
                let src = codec::ip_text(d.src_ip@);
                let known = map_texts(self.outdoor_by_ip@);
                if d.req != 704 {
                    r.dropped is None && r.push is None
                } else if known.dom().contains(src) {
                    r.dropped is None && endpoints::push_view(r.push) == Some(
                        ring_push(known[src], self.room(d.dst_ip@)),
                    )
                } else {
                    &&& r.push is None
                    &&& r.dropped matches Some(l)
                    &&& l@ == "ring: src="@ + src
                        + " not in cfg.Stations (dropped, neighbor or unconfigured station)"@
                }
            }),
    {
        let dir = infer_direction(
            d.src_ip,
            d.dst_ip,
            self.daemon_ip,
            self.indoor_ip,
            self.outdoor_ips.as_slice(),
        );
        let line = format_log(d.req, d.src_ip, d.dst_ip, d.body.as_slice(), dir);
        if d.req != 704 {
            return FrameSeen { line, dropped: None, push: None };
        }
        let src = ipv4_str(d.src_ip);
        match self.outdoor_by_ip.get(src.as_str()) {
            None => {
                let mut dropped = "ring: src=".to_owned();
                dropped.append(src.as_str());
                dropped.append(" not in cfg.Stations (dropped, neighbor or unconfigured station)");
                FrameSeen { line, dropped: Some(dropped), push: None }
            },
            Some(uri) => {
                let mut room = self.sip.clone();
                if let Some(ip) = self.indoor_ip {
                    if !same_ip(ip, d.dst_ip) && self.indoor_name.as_str().unicode_len() > 0 {
                        room = self.indoor_name.clone();
                        room.append("@");
                        push_ip(&mut room, d.dst_ip);
                        room.append(":18022");
                    }
                }
                assert(room@ =~= self.room(d.dst_ip@));
                let push = result_push("ring", uri.as_str(), room.as_str());
                FrameSeen { line, dropped: None, push: Some(push) }
            },
        }
    }
}

// ---------------------------------------------------------------------------
// Number queries
// ---------------------------------------------------------------------------

/// What is needed to answer number queries.
#[derive(Debug)]
pub struct NumberAnswer {
    pub my_num: String,
    /// The address of the configured interface, where it has one.
    pub our_ip: Option<[u8; 4]>,
    pub iface: String,
}

/// Prepares to answer queries for the configured number; without one there is nothing to answer,
/// and a line for the log says so.
pub fn build_number_query_callback(cfg: &Config, our_ip: Option<[u8; 4]>) -> (r: Result<
    NumberAnswer,
    String,
>)
    ensures
        match r {
            Ok(a) => codec::uri_parts(cfg@.sip) matches Ok((name, _, _)) && a.my_num@ == name
                && a.our_ip == our_ip && a.iface@ == cfg@.iface,
            Err(l) => codec::uri_parts(cfg@.sip) is Err && l@
                == "number_query: cfg.sip parse failed, callback not installed"@,
        },
{
    match parse_uri(cfg.sip.as_str()) {
        Ok((name, _, _)) => Ok(NumberAnswer { my_num: name, our_ip, iface: cfg.iface.clone() }),
        Err(_) => Err("number_query: cfg.sip parse failed, callback not installed".to_owned()),
    }
}

/// What a number query leads to.
#[derive(Debug)]
pub enum QueryReply {
    /// Another station is asked for.
    NotMine,
    /// The own address is not known; a line for the log.
    NoAddress(String),
    /// The answer to send.
    Answer([u8; 21]),
}

impl NumberAnswer {
    /// Answers a query: only one for the own number, and only where the own address is known.
    pub fn answer(&self, frame: &Frame) -> (r: QueryReply)
        ensures
            match r {
                QueryReply::NotMine => codec::bcd_text(frame.target_bcd@) != self.my_num@,
                QueryReply::NoAddress(l) => codec::bcd_text(frame.target_bcd@) == self.my_num@
                    && self.our_ip is None && l@
                    == "number_query: cannot determine local IPv4 (iface="@ + text::debug_text(
                    self.iface@,
                ) + ")"@,
                QueryReply::Answer(b) => codec::bcd_text(frame.target_bcd@) == self.my_num@
                    && self.our_ip is Some && b@ == listen6672::answer_bytes(
                    *frame,
                    (self.our_ip->0)@,
                ),
            },
    {
        if !str_eq(decode_bcd(frame.target_bcd).as_str(), self.my_num.as_str()) {
            return QueryReply::NotMine;
        }
        match self.our_ip {
            None => {
                let mut line = "number_query: cannot determine local IPv4 (iface=".to_owned();
                line.append(debug_string(self.iface.as_str()).as_str());
                line.append(")");
                QueryReply::NoAddress(line)
            },
            Some(ip) => QueryReply::Answer(build_number_query_response(frame, ip)),
        }
    }

    /// The line for an answer that was sent to `src_ip` with the own address `ip`, or for one that
    /// was not.
    pub fn sent(src_ip: [u8; 4], ip: [u8; 4], failure: Option<&str>) -> (line: String)
        ensures
            line@ == (match failure {
                None => "number_query: replied to "@ + codec::ip_text(src_ip@) + " with our IP "@
                    + codec::ip_text(ip@),
                Some(e) => "number_query: send: "@ + e@,
            }),
    {
        match failure {
            None => {
                let mut line = "number_query: replied to ".to_owned();
                push_ip(&mut line, src_ip);
                line.append(" with our IP ");
                push_ip(&mut line, ip);
                line
            },
            Some(e) => {
                let mut line = "number_query: send: ".to_owned();
                line.append(e);
                line
            },
        }
    }
}

// ---------------------------------------------------------------------------
// Unlock through the worker
// ---------------------------------------------------------------------------

/// The outcome where the worker is gone.
pub fn worker_unavailable_outcome() -> (o: UnlockOutcome)
    ensures
        o == unlock::unavailable(),
{
    UnlockOutcome {
        result: result::ERR,
        retries: 0,
        terminated_by_bye: false,
        wire_kind: Some(WireKind::Other),
    }
}

/// The outcome of an unlock that was handed to the worker, which answered `reply`, if at all.
pub fn worker_outcome(reply: Option<UnlockOutcome>) -> (o: UnlockOutcome)
    ensures
        o == (match reply {
            Some(o) => o,
            None => unlock::unavailable(),
        }),
{
    match reply {
        Some(o) => o,
        None => worker_unavailable_outcome(),
    }
}

} // verus!
