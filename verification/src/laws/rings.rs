//! Rings and what they lead to.

use vstd::prelude::*;
use vstd::string::*;

use super::forms;
use crate::codec;
use crate::config::Config;
use crate::daemon::DelayStep;
use crate::listen18022::{DetectedFrame, DetectedView, FrameFilter};
use crate::orchestration;
use crate::orchestration::{parse_stations_to_ip_map, StationMap};
use crate::self_unlock::{consumer_idle, hangup_step, AfterUnlock, Consumer, ConsumerStep,
    RingFilter, RingStep, RingTimes, SelfUnlockDeps};
use crate::text;
use crate::unlock::UnlockOutcome;

verus! {

/// Whether `uri` is the address under which the station at `ip` is known.
pub open spec fn known_as(m: StationMap, ip: Seq<u8>, uri: Seq<char>) -> bool {
    m@.dom().contains(forms::dotted(ip)) && m@[forms::dotted(ip)]@ == uri
}

/// A ring of a known station, with the flag on, leads to an unlock at that station unless the last
/// attempt there was less than the window ago: the first time, and every time that the window or
/// more has passed, however long that is.
pub proof fn law_ring_unlocks(
    c: &mut Consumer,
    deps: SelfUnlockDeps,
    d: DetectedFrame,
    now: u64,
    window: u64,
    step: RingStep,
    name: Seq<char>,
    ip: Seq<u8>,
    port: u16,
)
    requires
        call_ensures(Consumer::handle_ring, (c, &deps, &d, now, window, true), step),
        forms::is_number(name),
        ip.len() == 4,
        port >= 1,
        known_as(deps.outdoor_by_ip, d.src_ip@, forms::address(name, ip, port)),
        ({
            let uri = forms::address(name, ip, port);
            !old(c).last_triggered@.dom().contains(uri) || now >= old(c).last_triggered@[uri]
                + window
        }),
    ensures
        step matches RingStep::Trigger { line, uri, caller_bcd, target_ip, target_port } && {
            &&& uri@ == forms::address(name, ip, port)
            &&& forms::packs(caller_bcd@, name)
            &&& target_ip@ == forms::dotted(ip)
            &&& target_port == port
            &&& line@ == "[auto_unlock] trigger src="@ + uri@
                + " (dequeue-triggered=debounce_skips)"@
        },
        final(c).last_triggered@ == old(c).last_triggered@.insert(
            forms::address(name, ip, port),
            now,
        ),
        old(c).triggered_count < u64::MAX ==> final(c).triggered_count == old(c).triggered_count
            + 1,
        old(c).dequeue_count < u64::MAX ==> final(c).dequeue_count == old(c).dequeue_count + 1,
{
    forms::lemma_dotted(d.src_ip@);
    forms::lemma_address(name, ip, port);
    forms::lemma_number(name);
    forms::lemma_dotted(ip);
    lemma_texts(deps.outdoor_by_ip@, forms::dotted(d.src_ip@));
}

proof fn lemma_texts(m: Map<Seq<char>, String>, k: Seq<char>)
    ensures
        orchestration::map_texts(m).dom().contains(k) == m.dom().contains(k),
        m.dom().contains(k) ==> orchestration::map_texts(m)[k] == m[k]@,
{
}

/// Less than the window after an attempt at a station, further rings there lead to nothing, and
/// the time of the attempt stays.
pub proof fn law_ring_within_window_is_skipped(
    c: &mut Consumer,
    deps: SelfUnlockDeps,
    d: DetectedFrame,
    now: u64,
    window: u64,
    step: RingStep,
    uri: Seq<char>,
)
    requires
        call_ensures(Consumer::handle_ring, (c, &deps, &d, now, window, true), step),
        known_as(deps.outdoor_by_ip, d.src_ip@, uri),
        old(c).last_triggered@.dom().contains(uri),
        window > 0,
        now < old(c).last_triggered@[uri] + window,
    ensures
        step matches RingStep::Skip(l) && l@ == "[auto_unlock] debounce skip src="@ + uri,
        final(c).last_triggered@ == old(c).last_triggered@,
        final(c).triggered_count == old(c).triggered_count,
{
    forms::lemma_dotted(d.src_ip@);
    lemma_texts(deps.outdoor_by_ip@, forms::dotted(d.src_ip@));
}

/// With the flag off a ring leads to nothing and leaves no trace; nor does one from an address
/// that is not known, whatever the flag.
pub proof fn law_ring_without_flag_or_station(
    c: &mut Consumer,
    deps: SelfUnlockDeps,
    d: DetectedFrame,
    now: u64,
    window: u64,
    on: bool,
    step: RingStep,
)
    requires
        call_ensures(Consumer::handle_ring, (c, &deps, &d, now, window, on), step),
        !on || !deps.outdoor_by_ip@.dom().contains(forms::dotted(d.src_ip@)),
    ensures
        !(step is Trigger),
        !deps.outdoor_by_ip@.dom().contains(forms::dotted(d.src_ip@)) <==> step is Ignore,
        step matches RingStep::Skip(l) ==> l@ == "[auto_unlock] flag off, skip src="@
            + deps.outdoor_by_ip@[forms::dotted(d.src_ip@)]@,
        final(c).last_triggered@ == old(c).last_triggered@,
        final(c).triggered_count == old(c).triggered_count,
        old(c).dequeue_count < u64::MAX ==> final(c).dequeue_count == old(c).dequeue_count + 1,
{
    forms::lemma_dotted(d.src_ip@);
    lemma_texts(deps.outdoor_by_ip@, forms::dotted(d.src_ip@));
}

/// Of the frames seen, those count that ask for the own indoor station, come from a known
/// station, and are invitations.
pub proof fn law_which_rings_count(deps: SelfUnlockDeps, f: RingFilter, d: DetectedView)
    requires
        call_ensures(SelfUnlockDeps::make_filter, (&deps,), f),
    ensures
        f.picks(d) ==> d.req == 704 && d.dst_ip@ == deps.indoor_ip@
            && deps.outdoor_by_ip@.dom().contains(forms::dotted(d.src_ip@)),
        d.req == 704 && d.dst_ip@ == deps.indoor_ip@ && deps.outdoor_by_ip@.dom().contains(
            forms::dotted(d.src_ip@),
        ) ==> f.picks(d),
{
    forms::lemma_dotted(d.src_ip@);
}

/// The own indoor station is the one with the configured address: its number is called, its
/// address is rung.
pub proof fn law_own_station(
    cfg: Config,
    m: StationMap,
    r: Result<SelfUnlockDeps, String>,
    name: Seq<char>,
    ip: Seq<u8>,
    port: u16,
)
    requires
        call_ensures(SelfUnlockDeps::try_new, (&cfg, m), r),
        forms::is_number(name),
        ip.len() == 4,
        port >= 1,
        cfg@.sip == forms::address(name, ip, port),
    ensures
        r matches Ok(d) && {
            &&& forms::packs(d.callee_bcd@, name)
            &&& d.indoor_ip@ == ip
            &&& d.indoor_uri@ == forms::address(name, ip, port)
            &&& d.outdoor_by_ip == m
        },
{
    forms::lemma_address(name, ip, port);
    forms::lemma_number(name);
    forms::lemma_dotted(ip);
}

/// A configured station is known under its address, the last one of those that share it; and every
/// station that is known is a configured one.
pub proof fn law_configured_stations_are_known(
    cfg: Config,
    m: StationMap,
    i: int,
    name: Seq<char>,
    ip: Seq<u8>,
    port: u16,
)
    requires
        call_ensures(parse_stations_to_ip_map, (&cfg,), m),
        0 <= i < cfg@.stations.len(),
        forms::is_number(name),
        ip.len() == 4,
        port >= 1,
        cfg@.stations[i].sip == forms::address(name, ip, port),
        forall|j: int|
            i < j < cfg@.stations.len() ==> !at_address((#[trigger] cfg@.stations[j]).sip, ip),
    ensures
        known_as(m, ip, forms::address(name, ip, port)),
        forall|k: Seq<char>| #[trigger]
            m@.dom().contains(k) ==> exists|j: int|
                0 <= j < cfg@.stations.len() && (#[trigger] cfg@.stations[j]).sip == m@[k]@,
{
    forms::lemma_dotted(ip);
    let stations = cfg@.stations;
    lemma_station_kept(stations, stations.len(), i, name, ip, port);
    lemma_texts(m@, forms::dotted(ip));
    assert forall|k: Seq<char>| #[trigger] m@.dom().contains(k) implies exists|j: int|
        0 <= j < stations.len() && (#[trigger] stations[j]).sip == m@[k]@ by {
        lemma_texts(m@, k);
        orchestration::lemma_station_uri(stations, stations.len(), k);
    }
}

/// Whether an address is one at `ip`.
pub open spec fn at_address(uri: Seq<char>, ip: Seq<u8>) -> bool {
    codec::uri_parts(uri) matches Ok((_, h, _)) && h == forms::dotted(ip)
}

proof fn lemma_station_kept(
    stations: Seq<crate::config::StationView>,
    n: nat,
    i: int,
    name: Seq<char>,
    ip: Seq<u8>,
    port: u16,
)
    requires
        0 <= i < n <= stations.len(),
        forms::is_number(name),
        ip.len() == 4,
        port >= 1,
        stations[i].sip == forms::address(name, ip, port),
        forall|j: int| i < j < n ==> !at_address((#[trigger] stations[j]).sip, ip),
    ensures
        ({
            let m = orchestration::station_map(stations, n);
            m.dom().contains(forms::dotted(ip)) && m[forms::dotted(ip)] == stations[i].sip
        }),
    decreases n,
{
    forms::lemma_address(name, ip, port);
    if n - 1 > i {
        lemma_station_kept(stations, (n - 1) as nat, i, name, ip, port);
        assert(!at_address(stations[n - 1].sip, ip));
    }
}

/// After an unlock for a ring: a success is reported as one from the station to the indoor
/// station, and where the flag asks for it the call is ended at the station that was unlocked; a
/// failure is neither.
pub proof fn law_after_an_unlock(
    deps: SelfUnlockDeps,
    outcome: UnlockOutcome,
    uri: &str,
    caller_bcd: [u8; 4],
    target_ip: &str,
    target_port: u16,
    t_ms: u64,
    auto_hangup: bool,
    r: AfterUnlock,
)
    requires
        call_ensures(
            SelfUnlockDeps::after_unlock,
            (&deps, outcome, uri, caller_bcd, target_ip, target_port, t_ms, auto_hangup),
            r,
        ),
    ensures
        outcome.result == 0 ==> (r.push matches Some(p) && p.event@ == "unlock"@
            && p.fields@.len() == 3 && p.fields@[0].0@ == "from"@ && p.fields@[0].1@ == uri@
            && p.fields@[1].0@ == "to"@ && p.fields@[1].1@ == deps.indoor_uri@ && p.fields@[2].0@
            == "result"@ && p.fields@[2].1@ == "0"@),
        outcome.result != 0 ==> r.push is None && r.hangup is None,
        !auto_hangup ==> r.hangup is None,
        auto_hangup && outcome.result == 0 ==> (r.hangup matches Some(h) && h.outdoor_bcd
            == caller_bcd && h.monitor_bcd == deps.callee_bcd && h.outdoor_ip@ == target_ip@
            && h.outdoor_port == target_port),
        r.line@ == "[auto_unlock] result="@ + text::dec_int(outcome.result as int) + " retries="@
            + text::dec(outcome.retries as nat) + " t_ms="@ + text::dec(t_ms as nat),
{
    if outcome.result == 0 {
        let p = r.push->0;
        assert(p@.fields.len() == 3);
        assert(p@.fields[0] == (p.fields@[0].0@, p.fields@[0].1@));
        assert(p@.fields[1] == (p.fields@[1].0@, p.fields@[1].1@));
        assert(p@.fields[2] == (p.fields@[2].0@, p.fields@[2].1@));
    }
}

/// Rings are ignored for ten seconds, the most that an unlock takes, and a margin of two; the
/// call is ended two seconds after the unlock.
pub proof fn law_ring_times(t: RingTimes, margin: u32, delay: u32, window: u64, wait: u64)
    requires
        t.debounce_margin_ms == margin,
        t.hangup_delay_ms == delay,
        call_ensures(RingTimes::debounce_window, (&t,), window),
        call_ensures(RingTimes::hangup_delay, (&t,), wait),
    ensures
        window == 10_000 + margin,
        wait == delay,
{
}

/// Without further ado the margin and the delay are two seconds.
pub proof fn law_usual_ring_times(t: RingTimes)
    requires
        call_ensures(RingTimes::new, (), t),
    ensures
        t.debounce_margin_ms == 2_000,
        t.hangup_delay_ms == 2_000,
{
}

/// A call is ended once the delay is over and not before, and not at all once the daemon shuts
/// down; until then the wait is one of 20 ms.
pub proof fn law_hangup_waits(closing: bool, elapsed: u64, delay: u64, s: DelayStep)
    requires
        call_ensures(hangup_step, (closing, elapsed, delay), s),
    ensures
        closing <==> s is Abandon,
        s is Act ==> elapsed >= delay,
        !closing && elapsed >= delay ==> s is Act,
        !closing && elapsed < delay ==> s == DelayStep::Wait(20),
{
}

/// The task that waits for rings goes on until the daemon shuts down or no more rings can come.
pub proof fn law_consumer_goes_on(disconnected: bool, closing: bool, s: ConsumerStep)
    requires
        call_ensures(consumer_idle, (disconnected, closing), s),
    ensures
        s is Wait <==> !disconnected && !closing,
{
}

} // verus!
