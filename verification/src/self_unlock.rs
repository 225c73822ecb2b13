//! Unlocking by itself when somebody rings.

use vstd::prelude::*;
use vstd::string::*;
use vstd::utf8::*;

use crate::codec;
use crate::codec::result;
use crate::codec::{encode_bcd, parse_uri};
use crate::config;
use crate::config::Config;
use crate::control::endpoints;
use crate::control::endpoints::Push;
use crate::daemon::{DelayStep, HangupJob, POLL_SLICE_MS};
use crate::listen18022::{same_ip, DetectedFrame, DetectedView, FrameFilter};
use crate::orchestration;
use crate::orchestration::{ipv4_str, parse_ipv4, result_push, StationMap};
use crate::text;
use crate::text::{debug_string, push_dec, push_dec_int};
use crate::text_map::TextMap;
use crate::unlock::{UnlockOutcome, UNLOCK_TOTAL_CAP_MS};

verus! {

// ---------------------------------------------------------------------------
// Times
// ---------------------------------------------------------------------------

/// Times that can be shortened for trials, in milliseconds.
#[derive(Debug, Clone, Copy)]
pub struct RingTimes {
    /// How much longer than an unlock can take further rings are ignored.
    pub debounce_margin_ms: u32,
    /// How long after an unlock the call is ended.
    pub hangup_delay_ms: u32,
}

impl RingTimes {
    /// Two seconds each.
    pub fn new() -> (t: Self)
        ensures
            t.debounce_margin_ms == 2_000,
            t.hangup_delay_ms == 2_000,
    {
        RingTimes { debounce_margin_ms: 2_000, hangup_delay_ms: 2_000 }
    }

    /// For how long after a ring further rings of the same station are ignored: as long as an
    /// unlock can take, and the margin.
    pub open spec fn window(&self) -> u64 {
        (UNLOCK_TOTAL_CAP_MS + self.debounce_margin_ms) as u64
    }

    /// For how long after a ring further rings of the same station are ignored.
    pub fn debounce_window(&self) -> (ms: u64)
        ensures
            ms == self.window(),
    {
        UNLOCK_TOTAL_CAP_MS + self.debounce_margin_ms as u64
    }

    /// How long after an unlock the call is ended.
    pub fn hangup_delay(&self) -> (ms: u64)
        ensures
            ms == self.hangup_delay_ms,
    {
        self.hangup_delay_ms as u64
    }

    /// Sets the margin, of which the low 32 bits count, and gives the old one.
    pub fn set_debounce_margin_ms_for_test(&mut self, ms: u64) -> (was: u64)
        ensures
            was == old(self).debounce_margin_ms,
            final(self).debounce_margin_ms == ms % 0x1_0000_0000,
            final(self).hangup_delay_ms == old(self).hangup_delay_ms,
    {
        let was: u32 = self.debounce_margin_ms;
        self.debounce_margin_ms = (ms % 0x1_0000_0000) as u32;
        was as u64
    }

    /// Sets the delay, of which the low 32 bits count, and gives the old one.
    pub fn set_hangup_delay_ms_for_test(&mut self, ms: u64) -> (was: u64)
        ensures
            was == old(self).hangup_delay_ms,
            final(self).hangup_delay_ms == ms % 0x1_0000_0000,
            final(self).debounce_margin_ms == old(self).debounce_margin_ms,
    {
        let was: u32 = self.hangup_delay_ms;
        self.hangup_delay_ms = (ms % 0x1_0000_0000) as u32;
        was as u64
    }
}

// ---------------------------------------------------------------------------
// Which rings count
// ---------------------------------------------------------------------------

/// What is needed to react to rings.
#[derive(Debug)]
pub struct SelfUnlockDeps {
    /// The stations by their addresses.
    pub outdoor_by_ip: StationMap,
    /// The number of the indoor station.
    pub callee_bcd: [u8; 4],
    pub indoor_ip: [u8; 4],
    /// The URI of the indoor station.
    pub indoor_uri: String,
}

/// Number and address of the indoor station, or the line that says why there is no reaction to
/// rings.
pub open spec fn indoor_setup(sip: Seq<char>) -> Result<(Seq<u8>, Seq<u8>), Seq<char>> {
    match codec::uri_parts(sip) {
        Err(_) => Err(
            "[auto_unlock] consumer: parse cfg.sip (callee) failed; self-unlock disabled"@,
        ),
        Ok((name, ip, _)) => match codec::bcd_value(encode_utf8(name)) {
            Err(_) => Err(
                "[auto_unlock] consumer: parse cfg.sip (callee bcd) failed; self-unlock disabled"@,
            ),
            Ok(bcd) => Ok((bcd, codec::ipv4_value(ip)->0)),
        },
    }
}

impl SelfUnlockDeps {
    /// Prepares for rings at `outdoor_by_ip`; where the indoor station's URI is of no use, a line
    /// for the log.
    pub fn try_new(cfg: &Config, outdoor_by_ip: StationMap) -> (r: Result<Self, String>)
        ensures
            match r {
                Ok(d) => {
                    &&& indoor_setup(cfg@.sip) == Ok::<_, Seq<char>>((d.callee_bcd@, d.indoor_ip@))
                    &&& d.indoor_uri@ == cfg@.sip
                    &&& d.outdoor_by_ip == outdoor_by_ip
                },
                Err(l) => indoor_setup(cfg@.sip) == Err::<(Seq<u8>, Seq<u8>), _>(l@),
            },
    {
        let (name, ip) = match parse_uri(cfg.sip.as_str()) {
            Ok((name, ip, _)) => (name, ip),
            Err(_) => {
                return Err(
                    "[auto_unlock] consumer: parse cfg.sip (callee) failed; self-unlock disabled".to_owned(),
                );
            },
        };
        let callee_bcd = match encode_bcd(name.as_str()) {
            Ok(b) => b,
            Err(_) => {
                return Err(
                    "[auto_unlock] consumer: parse cfg.sip (callee bcd) failed; self-unlock disabled".to_owned(),
                );
            },
        };
        match parse_ipv4(ip.as_str()) {
            Some(indoor_ip) => Ok(
                SelfUnlockDeps { outdoor_by_ip, callee_bcd, indoor_ip, indoor_uri: cfg.sip.clone() },
            ),
            None => Err(
                "[auto_unlock] consumer: cfg.sip indoor ip unparseable; self-unlock disabled".to_owned(),
            ),
        }
    }

    /// The filter for the rings that count.
    pub fn make_filter(&self) -> (f: RingFilter)
        ensures
            forall|d: DetectedView| #[trigger]
                f.picks(d) == is_ring(d, self.outdoor_by_ip@.dom(), self.indoor_ip@),
    {
        let mut ips: TextMap<()> = TextMap::new();
        let n: usize = self.outdoor_by_ip.len();
        let mut i: usize = 0;
        while i < n
            invariant
                i <= n == self.outdoor_by_ip.keys().len(),
                forall|k: Seq<char>| #[trigger]
                    ips@.dom().contains(k) <==> exists|j: int|
                        0 <= j < i && #[trigger] self.outdoor_by_ip.keys()[j] == k,
            decreases n - i,
        {
            let ghost before = ips@;
            let ghost keys = self.outdoor_by_ip.keys();
            ips.insert(self.outdoor_by_ip.key_at(i).clone(), ());
            assert forall|k: Seq<char>| #[trigger] ips@.dom().contains(k) <==> exists|j: int|
                0 <= j < i + 1 && #[trigger] keys[j] == k by {
                if ips@.dom().contains(k) {
                    if before.dom().contains(k) {
                        let j = choose|j: int| 0 <= j < i && #[trigger] keys[j] == k;
                        assert(keys[j] == k);
                    } else {
                        assert(keys[i as int] == k);
                    }
                }
                if exists|j: int| 0 <= j < i + 1 && #[trigger] keys[j] == k {
                    let j = choose|j: int| 0 <= j < i + 1 && #[trigger] keys[j] == k;
                    if j < i {
                        assert(keys[j] == k);
                        assert(before.dom().contains(k));
                    }
                }
            }
            i = i + 1;
        }
        assert(ips@.dom() =~= self.outdoor_by_ip@.dom());
        RingFilter { indoor_ip: self.indoor_ip, outdoor_ips: ips }
    }
}

/// Lets the rings through that count.
#[derive(Debug)]
pub struct RingFilter {
    indoor_ip: [u8; 4],
    outdoor_ips: TextMap<()>,
}

/// Whether `f` is a ring from one of the stations with the addresses `from` for the address `to`.
pub open spec fn is_ring(f: DetectedView, from: Set<Seq<char>>, to: Seq<u8>) -> bool {
    f.req == 704 && f.dst_ip@ == to && from.contains(codec::ip_text(f.src_ip@))
}

impl FrameFilter for RingFilter {
    closed spec fn picks(&self, f: DetectedView) -> bool {
        is_ring(f, self.outdoor_ips@.dom(), self.indoor_ip@)
    }

    fn pass(&self, f: &DetectedFrame) -> (r: bool) {
        if f.req != 704 {
            return false;
        }
        if !same_ip(f.dst_ip, self.indoor_ip) {
            return false;
        }
        self.outdoor_ips.get(ipv4_str(f.src_ip).as_str()).is_some()
    }
}

// ---------------------------------------------------------------------------
// Reacting to a ring
// ---------------------------------------------------------------------------

/// Number, address and port of an outdoor station, or what is wrong with its URI.
pub open spec fn outdoor_parts(uri: Seq<char>) -> Result<(Seq<u8>, Seq<char>, u16), Seq<char>> {
    match codec::uri_parts(uri) {
        Err(_) => Err("uri parse"@),
        Ok((name, ip, port)) => match codec::bcd_value(encode_utf8(name)) {
            Err(_) => Err("bcd encode"@),
            Ok(bcd) => Ok((bcd, ip, port)),
        },
    }
}

/// Number, address and port of an outdoor station.
pub fn parse_outdoor_uri(uri: &str) -> (r: Result<([u8; 4], String, u16), String>)
    ensures
        match r {
            Ok((b, ip, port)) => outdoor_parts(uri@) == Ok::<_, Seq<char>>((b@, ip@, port)),
            Err(m) => outdoor_parts(uri@) == Err::<(Seq<u8>, Seq<char>, u16), _>(m@),
        },
{
    match parse_uri(uri) {
        Err(_) => Err("uri parse".to_owned()),
        Ok((name, ip, port)) => match encode_bcd(name.as_str()) {
            Err(_) => Err("bcd encode".to_owned()),
            Ok(bcd) => Ok((bcd, ip, port)),
        },
    }
}

/// Which rings led to an attempt, and how many there were.
#[derive(Debug)]
pub struct Consumer {
    /// When the last attempt for each station was made.
    pub last_triggered: TextMap<u64>,
    pub dequeue_count: u64,
    pub triggered_count: u64,
}

/// What a ring leads to.
#[derive(Debug)]
pub enum RingStep {
    /// It comes from no configured station.
    Ignore,
    /// Only a line for the log.
    Skip(String),
    /// A line for the log, and an unlock at a station.
    Trigger { line: String, uri: String, caller_bcd: [u8; 4], target_ip: String, target_port: u16 },
}

/// Whether an attempt for `uri` was made less than `window` before `now`.
pub open spec fn recent(last: Map<Seq<char>, u64>, uri: Seq<char>, now: u64, window: u64) -> bool {
    let since = if now > last[uri] {
        now - last[uri]
    } else {
        0
    };
    last.dom().contains(uri) && since < window
}

/// `n` and one more, up to the largest number there is.
pub open spec fn counted(n: u64) -> u64 {
    if n < u64::MAX {
        (n + 1) as u64
    } else {
        n
    }
}

/// What a ring at the station `uri`, if it is one, leads to, and the attempts noted after it.
pub open spec fn ring_follows(
    uri: Option<Seq<char>>,
    on: bool,
    last: Map<Seq<char>, u64>,
    now: u64,
    window: u64,
    step: RingStep,
    after: Map<Seq<char>, u64>,
) -> bool {
    match uri {
        None => step is Ignore && after == last,
        Some(u) => if !on {
            &&& step matches RingStep::Skip(l)
            &&& l@ == "[auto_unlock] flag off, skip src="@ + u
            &&& after == last
        } else if recent(last, u, now, window) {
            &&& step matches RingStep::Skip(l)
            &&& l@ == "[auto_unlock] debounce skip src="@ + u
            &&& after == last
        } else {
            &&& after == last.insert(u, now)
            &&& match outdoor_parts(u) {
                Err(m) => {
                    &&& step matches RingStep::Skip(l)
                    &&& l@ == "[auto_unlock] parse outdoor uri "@ + text::debug_text(u)
                        + " failed: "@ + m + " (skip)"@
                },
                Ok((bcd, ip, port)) => {
                    &&& step matches RingStep::Trigger {
                        line,
                        uri: at,
                        caller_bcd,
                        target_ip,
                        target_port,
                    }
                    &&& line@ == "[auto_unlock] trigger src="@ + u
                        + " (dequeue-triggered=debounce_skips)"@
                    &&& at@ == u
                    &&& caller_bcd@ == bcd
                    &&& target_ip@ == ip
                    &&& target_port == port
                },
            }
        },
    }
}

impl Consumer {
    /// No rings yet.
    pub fn new() -> (c: Self)
        ensures
            c.last_triggered@ == Map::<Seq<char>, u64>::empty(),
            c.dequeue_count == 0,
            c.triggered_count == 0,
    {
        Consumer { last_triggered: TextMap::new(), dequeue_count: 0, triggered_count: 0 }
    }

    /// Takes a ring that came at `now`, where `auto_unlock` says whether to unlock by itself. A
    /// ring that is let by is noted before anything can go wrong with it; one that is not leaves
    /// no trace.
    pub fn handle_ring(
        &mut self,
        deps: &SelfUnlockDeps,
        frame: &DetectedFrame,
        now: u64,
        window: u64,
        auto_unlock: bool,
    ) -> (step: RingStep)
        ensures
            ({
                let known = orchestration::map_texts(deps.outdoor_by_ip@);
                let src = codec::ip_text(frame.src_ip@);
                ring_follows(
                    if known.dom().contains(src) {
                        Some(known[src])
                    } else {
                        None
                    },
                    auto_unlock,
                    old(self).last_triggered@,
                    now,
                    window,
                    step,
                    final(self).last_triggered@,
                )
            }),
            final(self).dequeue_count == counted(old(self).dequeue_count),
            final(self).triggered_count == (if step is Trigger {
                counted(old(self).triggered_count)
            } else {
                old(self).triggered_count
            }),
    {
        if self.dequeue_count < u64::MAX {
            self.dequeue_count = self.dequeue_count + 1;
        }
        let src = ipv4_str(frame.src_ip);
        let uri: String = match deps.outdoor_by_ip.get(src.as_str()) {
            Some(u) => u.clone(),
            None => {
                return RingStep::Ignore;
            },
        };
        if !auto_unlock {
            let mut line = "[auto_unlock] flag off, skip src=".to_owned();
            line.append(uri.as_str());
            return RingStep::Skip(line);
        }
        if let Some(last) = self.last_triggered.get(uri.as_str()) {
            let since: u64 = if now > *last {
                now - *last
            } else {
                0
            };
            if since < window {
                let mut line = "[auto_unlock] debounce skip src=".to_owned();
                line.append(uri.as_str());
                return RingStep::Skip(line);
            }
        }
        self.last_triggered.insert(uri.clone(), now);
        match parse_outdoor_uri(uri.as_str()) {
            Err(m) => {
                let mut line = "[auto_unlock] parse outdoor uri ".to_owned();
                line.append(debug_string(uri.as_str()).as_str());
                line.append(" failed: ");
                line.append(m.as_str());
                line.append(" (skip)");
                RingStep::Skip(line)
            },
            Ok((caller_bcd, target_ip, target_port)) => {
                if self.triggered_count < u64::MAX {
                    self.triggered_count = self.triggered_count + 1;
                }
                let mut line = "[auto_unlock] trigger src=".to_owned();
                line.append(uri.as_str());
                line.append(" (dequeue-triggered=debounce_skips)");
                RingStep::Trigger { line, uri, caller_bcd, target_ip, target_port }
            },
        }
    }

    /// The line at the end.
    pub fn stop_line(&self) -> (line: String)
        ensures
            line@ == "[auto_unlock] self-unlock consumer stopping (dequeue="@ + text::dec(
                self.dequeue_count as nat,
            ) + " triggered="@ + text::dec(self.triggered_count as nat) + ")"@,
    {
        let mut line = "[auto_unlock] self-unlock consumer stopping (dequeue=".to_owned();
        push_dec(&mut line, self.dequeue_count);
        line.append(" triggered=");
        push_dec(&mut line, self.triggered_count);
        line.append(")");
        line
    }
}

/// Of two rings at a station within the window only the first leads to an attempt, whatever
/// became of that attempt.
pub proof fn law_one_attempt_per_window(
    uri: Seq<char>,
    last: Map<Seq<char>, u64>,
    first: u64,
    second: u64,
    window: u64,
    step1: RingStep,
    mid: Map<Seq<char>, u64>,
    step2: RingStep,
    after: Map<Seq<char>, u64>,
)
    requires
        ring_follows(Some(uri), true, last, first, window, step1, mid),
        ring_follows(Some(uri), true, mid, second, window, step2, after),
        !recent(last, uri, first, window),
        first <= second < first + window,
    ensures
        !(step2 is Trigger),
        after == mid,
{
    assert(mid[uri] == first);
}

/// The window covers an unlock: when a ring leads to a further attempt at a station, the attempt
/// before it is over, for it began at least as long ago as an unlock can take and the margin.
pub proof fn law_window_covers_unlock(
    t: RingTimes,
    uri: Seq<char>,
    last: Map<Seq<char>, u64>,
    first: u64,
    second: u64,
    step1: RingStep,
    mid: Map<Seq<char>, u64>,
    step2: RingStep,
    after: Map<Seq<char>, u64>,
)
    requires
        ring_follows(Some(uri), true, last, first, t.window(), step1, mid),
        ring_follows(Some(uri), true, mid, second, t.window(), step2, after),
        step1 is Trigger,
        step2 is Trigger,
        first <= second,
    ensures
        t.window() == UNLOCK_TOTAL_CAP_MS + t.debounce_margin_ms,
        second - first >= t.window() >= UNLOCK_TOTAL_CAP_MS,
{
    assert(mid[uri] == first);
}

/// A ring while the flag is off does not keep a later ring from leading to an attempt.
pub proof fn law_flag_off_leaves_no_trace(
    uri: Seq<char>,
    last: Map<Seq<char>, u64>,
    first: u64,
    second: u64,
    window: u64,
    step1: RingStep,
    mid: Map<Seq<char>, u64>,
    step2: RingStep,
    after: Map<Seq<char>, u64>,
)
    requires
        ring_follows(Some(uri), false, last, first, window, step1, mid),
        ring_follows(Some(uri), true, mid, second, window, step2, after),
        !recent(last, uri, second, window),
        outdoor_parts(uri) is Ok,
    ensures
        !(step1 is Trigger),
        step2 is Trigger,
{
}

/// Stations are told apart: a ring at one does not keep a ring at another from leading to an
/// attempt.
pub proof fn law_stations_are_independent(
    a: Seq<char>,
    b: Seq<char>,
    last: Map<Seq<char>, u64>,
    now: u64,
    later: u64,
    window: u64,
    step: RingStep,
    mid: Map<Seq<char>, u64>,
)
    requires
        a != b,
        ring_follows(Some(a), true, last, now, window, step, mid),
    ensures
        recent(mid, b, later, window) == recent(last, b, later, window),
{
}

/// The door that is unlocked is the one at which somebody rings: the station that the unlock goes
/// to has the address from which the ring came.
pub proof fn law_unlocks_where_it_rings(
    stations: Seq<config::StationView>,
    src: Seq<u8>,
    on: bool,
    last: Map<Seq<char>, u64>,
    now: u64,
    window: u64,
    step: RingStep,
    after: Map<Seq<char>, u64>,
)
    requires
        ({
            let known = orchestration::station_map(stations, stations.len());
            ring_follows(
                if known.dom().contains(codec::ip_text(src)) {
                    Some(known[codec::ip_text(src)])
                } else {
                    None
                },
                on,
                last,
                now,
                window,
                step,
                after,
            )
        }),
        step is Trigger,
    ensures
        on,
        (step->target_ip)@ == codec::ip_text(src),
        exists|i: int| 0 <= i < stations.len() && (#[trigger] stations[i]).sip == (step->uri)@,
{
    let known = orchestration::station_map(stations, stations.len());
    orchestration::law_stations_by_their_address(stations, stations.len(), codec::ip_text(src));
    orchestration::lemma_station_uri(stations, stations.len(), codec::ip_text(src));
}

/// What follows an unlock: a line for the log, the event to report and the call to end, where
/// there are.
#[derive(Debug)]
pub struct AfterUnlock {
    pub line: String,
    pub push: Option<Push>,
    pub hangup: Option<HangupJob>,
}

impl SelfUnlockDeps {
    /// What follows an unlock at the station `uri` with the outcome `outcome`, `t_ms` after the
    /// ring: only a success is reported, and only after one the call is ended, where
    /// `auto_hangup` asks for it.
    pub fn after_unlock(
        &self,
        outcome: UnlockOutcome,
        uri: &str,
        caller_bcd: [u8; 4],
        target_ip: &str,
        target_port: u16,
        t_ms: u64,
        auto_hangup: bool,
    ) -> (r: AfterUnlock)
        ensures
            r.line@ == "[auto_unlock] result="@ + text::dec_int(outcome.result as int)
                + " retries="@ + text::dec(outcome.retries as nat) + " t_ms="@ + text::dec(
                t_ms as nat,
            ),
            endpoints::push_view(r.push) == (if outcome.result == result::OK {
                Some(
                    endpoints::PushView {
                        event: "unlock"@,
                        fields: seq![
                            ("from"@, uri@),
                            ("to"@, self.indoor_uri@),
                            ("result"@, "0"@),
                        ],
                    },
                )
            } else {
                None
            }),
            (r.hangup is Some) == (auto_hangup && outcome.result == result::OK),
            r.hangup matches Some(h) ==> h.outdoor_bcd == caller_bcd && h.monitor_bcd
                == self.callee_bcd && h.outdoor_ip@ == target_ip@ && h.outdoor_port == target_port,
    {
        let mut line = "[auto_unlock] result=".to_owned();
        push_dec_int(&mut line, outcome.result as i64);
        line.append(" retries=");
        push_dec(&mut line, outcome.retries as u64);
        line.append(" t_ms=");
        push_dec(&mut line, t_ms);
        let opened = outcome.result == result::OK;
        let push = if opened {
            Some(result_push("unlock", uri, self.indoor_uri.as_str()))
        } else {
            None
        };
        let hangup = if auto_hangup && opened {
            Some(
                HangupJob {
                    outdoor_bcd: caller_bcd,
                    monitor_bcd: self.callee_bcd,
                    outdoor_ip: target_ip.to_owned(),
                    outdoor_port: target_port,
                },
            )
        } else {
            None
        };
        AfterUnlock { line, push, hangup }
    }
}

/// What the task does next that ends a call `delay` milliseconds after its start, `elapsed`
/// milliseconds after it.
pub fn hangup_step(closing: bool, elapsed: u64, delay: u64) -> (s: DelayStep)
    ensures
        s == (if closing {
            DelayStep::Abandon
        } else if elapsed >= delay {
            DelayStep::Act
        } else {
            DelayStep::Wait(POLL_SLICE_MS)
        }),
{
    if closing {
        DelayStep::Abandon
    } else if elapsed >= delay {
        DelayStep::Act
    } else {
        DelayStep::Wait(POLL_SLICE_MS)
    }
}

/// What a consumer does where no ring came within its wait.
#[derive(Debug, Clone, Copy, PartialEq, Eq, Structural)]
pub enum ConsumerStep {
    Wait,
    Stop,
}

/// What a consumer does where no ring came within its wait: it stops once the daemon shuts down
/// or no more rings can come.
pub fn consumer_idle(disconnected: bool, closing: bool) -> (s: ConsumerStep)
    ensures
        s == (if disconnected || closing {
            ConsumerStep::Stop
        } else {
            ConsumerStep::Wait
        }),
{
    if disconnected || closing {
        ConsumerStep::Stop
    } else {
        ConsumerStep::Wait
    }
}

} // verus!
