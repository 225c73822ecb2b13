//! From the start to the end of the daemon.

use vstd::prelude::*;
use vstd::string::*;
use vstd::utf8::*;

use super::forms;
use super::replies;
use crate::automation_state;
use crate::automation_state::{parse, persist_failure, render, temp_path, ParseError, Persister,
    State};
use crate::cli;
use crate::cli::{after_load, after_run, flags_line, flags_push, http_addr, main_impl, parse_flags,
    run_result, shutdown_plan, wait_over, ShutdownStep, Started};
use crate::codec;
use crate::config::{Config, ConfigError};
use crate::control::endpoints::Push;
use crate::listen18022;
use crate::orchestration;
use crate::orchestration::{build_listen18022, build_number_query_callback, load_automation_flags,
    NumberAnswer, RingWatch, StartFlags, StateRead};
use crate::text;

verus! {

// ---------------------------------------------------------------------------
// Saved flags
// ---------------------------------------------------------------------------

/// The flags as they are saved.
pub open spec fn saved_text(unlock: bool, hangup: bool) -> Seq<char> {
    "auto_unlock="@ + replies::flag(unlock) + "\nauto_hangup="@ + replies::flag(hangup) + "\n"@
}

proof fn lemma_saved_text(st: State)
    ensures
        automation_state::state_text(st) == saved_text(st.auto_unlock, st.auto_hangup),
{
    reveal_strlit("\nauto_hangup=");
    reveal_strlit("auto_hangup=");
    reveal_strlit("\n");
    let a = "auto_unlock="@ + automation_state::bool_text(st.auto_unlock);
    let b = automation_state::bool_text(st.auto_hangup);
    assert("\nauto_hangup="@ =~= seq!['\n'] + "auto_hangup="@);
    assert(a.push('\n') + ("auto_hangup="@ + b).push('\n') =~= a + (seq!['\n'] + "auto_hangup="@)
        + b + "\n"@);
}

/// The flags are saved as two lines, and read back as they were.
pub proof fn law_flags_are_saved(
    st: State,
    out: Vec<u8>,
    raw: &[u8],
    r: Result<State, ParseError>,
)
    requires
        call_ensures(render, (st,), out),
        raw@ == encode_utf8(saved_text(st.auto_unlock, st.auto_hangup)),
        call_ensures(parse, (raw,), r),
    ensures
        out@ == encode_utf8(saved_text(st.auto_unlock, st.auto_hangup)),
        r matches Ok(s) && s.auto_unlock == st.auto_unlock && s.auto_hangup == st.auto_hangup,
{
    lemma_saved_text(st);
    automation_state::law_parse_after_render(st);
}

/// A value as it may stand in the file: `true` or `1`, `false` or `0`, in any letter case.
pub open spec fn means(v: Seq<char>, b: bool) -> bool {
    if b {
        text::eq_no_case(v, "true"@) || v == "1"@
    } else {
        text::eq_no_case(v, "false"@) || v == "0"@
    }
}

proof fn lemma_means(v: Seq<char>, b: bool)
    requires
        means(v, b),
    ensures
        automation_state::bool_value(v) == Some(b),
        v.len() > 0,
        forall|i: int| 0 <= i < v.len() ==> #[trigger] v[i] != '\n' && !text::is_space(v[i]),
{
    reveal_strlit("true");
    reveal_strlit("false");
    reveal_strlit("1");
    reveal_strlit("0");
    let l = text::lower_all(v);
    assert(text::lower_all("true"@) =~= "true"@);
    assert(text::lower_all("false"@) =~= "false"@);
    assert(text::lower_all("1"@) =~= "1"@);
    assert(text::lower_all("0"@) =~= "0"@);
    assert(l.len() == v.len());
    assert("true"@.len() == 4 && "false"@.len() == 5 && "1"@.len() == 1 && "0"@.len() == 1);
    assert("1"@[0] != "0"@[0]);
    assert forall|i: int| 0 <= i < v.len() implies #[trigger] v[i] != '\n' && !text::is_space(
        v[i],
    ) by {
        assert(l[i] == text::lower(v[i]));
        lemma_lower_visible(v[i]);
    }
}

proof fn lemma_lower_visible(c: char)
    requires
        'a' <= text::lower(c) <= 'z' || c == '1' || c == '0',
    ensures
        c != '\n',
        !text::is_space(c),
{
}

proof fn lemma_flag_line(name: Seq<char>, v: Seq<char>, b: bool, seen: automation_state::Seen)
    requires
        name == "auto_unlock"@ || name == "auto_hangup"@,
        means(v, b),
    ensures
        automation_state::line_step(name + seq!['='] + v, seen) == Some(
            if name == "auto_unlock"@ {
                automation_state::Seen { auto_unlock: Some(b), ..seen }
            } else {
                automation_state::Seen { auto_hangup: Some(b), ..seen }
            },
        ),
        forall|j: int| 0 <= j < (name + seq!['='] + v).len() ==> (name + seq!['='] + v)[j] != '\n',
{
    reveal_strlit("auto_unlock");
    reveal_strlit("auto_hangup");
    lemma_means(v, b);
    let s = name + seq!['='] + v;
    assert(s[0] == 'a' && s.last() == v[v.len() - 1]);
    assert(v[v.len() - 1] != '\n');
    text::lemma_trim_tight(s);
    assert forall|j: int| 0 <= j < 11 implies s[j] != '=' by {
        assert(s[j] == name[j]);
    }
    text::lemma_find_at(s, '=', 11);
    assert(s.take(11) =~= name);
    assert(s.skip(12) =~= v);
    text::lemma_trim_tight(name);
    assert(v[0] != '\n');
    text::lemma_trim_tight(v);
    assert forall|j: int| 0 <= j < s.len() implies s[j] != '\n' by {
        if j < 11 {
            assert(s[j] == name[j]);
        } else if j > 11 {
            assert(s[j] == v[j - 12]);
            assert(v[j - 12] != '\n');
        }
    }
}

/// The two lines may stand in either order, and each flag is read from the line with its name.
#[verifier::rlimit(40)]
pub proof fn law_flags_by_name(
    raw: &[u8],
    r: Result<State, ParseError>,
    unlock: bool,
    hangup: bool,
    u: Seq<char>,
    h: Seq<char>,
    first: bool,
)
    requires
        call_ensures(parse, (raw,), r),
        means(u, unlock),
        means(h, hangup),
        raw@ == encode_utf8(
            if first {
                ("auto_unlock"@ + seq!['='] + u).push('\n') + ("auto_hangup"@ + seq!['='] + h)
            } else {
                ("auto_hangup"@ + seq!['='] + h).push('\n') + ("auto_unlock"@ + seq!['='] + u)
            },
        ),
    ensures
        r matches Ok(s) && s.auto_unlock == unlock && s.auto_hangup == hangup,
{
    let start = automation_state::Seen { auto_unlock: None, auto_hangup: None };
    let a = "auto_unlock"@ + seq!['='] + u;
    let b = "auto_hangup"@ + seq!['='] + h;
    let (x, y) = if first {
        (a, b)
    } else {
        (b, a)
    };
    lemma_flag_line("auto_unlock"@, u, unlock, start);
    lemma_flag_line("auto_hangup"@, h, hangup, start);
    assert("auto_unlock"@ != "auto_hangup"@) by {
        reveal_strlit("auto_unlock");
        reveal_strlit("auto_hangup");
        assert("auto_unlock"@[5] != "auto_hangup"@[5]);
    }
    let mid = automation_state::line_step(x, start)->0;
    lemma_flag_line("auto_unlock"@, u, unlock, mid);
    lemma_flag_line("auto_hangup"@, h, hangup, mid);
    let t = x.push('\n') + y;
    encode_utf8_valid_utf8(t);
    encode_utf8_decode_utf8(t);
    text::lemma_split_at(x, '\n', y);
    text::lemma_find_none(y, '\n');
    let lines = text::split(t, '\n');
    assert(lines =~= seq![x, y]);
    assert(lines.drop_first() =~= seq![y]);
    assert(seq![y].drop_first() =~= Seq::<Seq<char>>::empty());
    reveal_with_fuel(automation_state::lines_step, 3);
}

/// Flags are written where they differ from those written last, and then as they are; the new file
/// stands beside the old one until it takes its place.
pub proof fn law_flags_are_written(
    p: Persister,
    cur: State,
    w: Option<Vec<u8>>,
    path: &str,
    t: String,
    error: &str,
    line: String,
)
    requires
        call_ensures(Persister::persist, (&p, cur), w),
        call_ensures(temp_path, (path,), t),
        call_ensures(persist_failure, (error,), line),
    ensures
        w is None <==> (p.last() matches Some(l) && l.auto_unlock == cur.auto_unlock
            && l.auto_hangup == cur.auto_hangup),
        w matches Some(b) ==> b@ == encode_utf8(saved_text(cur.auto_unlock, cur.auto_hangup)),
        t@ == path@ + ".tmp"@,
        line@ == "automation.state persist failed (best-effort, flag still applied in-memory): "@
            + error@,
{
    lemma_saved_text(cur);
}

/// What was noted as written is not written again.
pub proof fn law_written_flags_are_noted(p: &mut Persister, cur: State, w: Option<Vec<u8>>)
    requires
        call_ensures(Persister::saved, (p, cur), ()),
        call_ensures(Persister::persist, (&*final(p), cur), w),
    ensures
        w is None,
{
}

/// The flags at start: those of the file where it holds some, and else those of the configuration.
/// What is wrong with the file is logged.
pub proof fn law_flags_at_start(
    path: &str,
    read: StateRead,
    cfg: Config,
    env_set: bool,
    f: StartFlags,
)
    requires
        call_ensures(load_automation_flags, (path, &read, &cfg, env_set), f),
    ensures
        forall|u: bool, h: bool|
            read matches Ok(Some(raw)) && raw@ == encode_utf8(#[trigger] saved_text(u, h))
                ==> f.auto_unlock == u && f.auto_hangup == h && f.source@ == "state"@ && f.log@.len()
                == 0,
        read matches Ok(None) ==> f.auto_unlock == cfg.automation.auto_unlock && f.auto_hangup
            == cfg.automation.auto_hangup && f.source@ == "config"@ && f.log@.len() == (if env_set {
            1int
        } else {
            0
        }),
        read matches Err(e) ==> f.auto_unlock == cfg.automation.auto_unlock && f.auto_hangup
            == cfg.automation.auto_hangup && f.source@ == "config"@ && f.log@.len() >= 1
            && f.log@[0]@
            == "automation.state load failed, falling back to config defaults: "@ + ("read "@
            + path@ + ": "@ + e@),
{
    let lines = text::string_views(f.log@);
    assert(lines.len() == f.log@.len());
    assert forall|u: bool, h: bool|
        read matches Ok(Some(raw)) && raw@ == encode_utf8(#[trigger] saved_text(u, h)) implies
        f.auto_unlock == u && f.auto_hangup == h && f.source@ == "state"@ && f.log@.len() == 0 by {
        let st = State { auto_unlock: u, auto_hangup: h };
        lemma_saved_text(st);
        automation_state::law_parse_after_render(st);
    }
    if read is Err {
        assert(lines[0] == f.log@[0]@);
    }
}

/// How the flags at start are logged and reported.
pub proof fn law_flags_are_told(unlock: bool, hangup: bool, source: &str, line: String, p: Push)
    requires
        call_ensures(flags_line, (unlock, hangup, source), line),
        call_ensures(flags_push, (unlock, hangup), p),
    ensures
        line@ == "automation: auto_unlock="@ + (if unlock {
            "on"@
        } else {
            "off"@
        }) + " auto_hangup="@ + (if hangup {
            "on"@
        } else {
            "off"@
        }) + " (source="@ + source@ + ")"@,
        p.event@ == "automation_state"@,
        p.fields@.len() == 2,
        p.fields@[0].0@ == "auto_unlock"@ && p.fields@[0].1@ == replies::flag(unlock),
        p.fields@[1].0@ == "auto_hangup"@ && p.fields@[1].1@ == replies::flag(hangup),
{
    let v = p@.fields;
    assert(v.len() == p.fields@.len());
    assert(v[0] == (p.fields@[0].0@, p.fields@[0].1@));
    assert(v[1] == (p.fields@[1].0@, p.fields@[1].1@));
}

// ---------------------------------------------------------------------------
// Command line
// ---------------------------------------------------------------------------

/// The paths that a command line asks for: the last of each kind counts, in either form, and what
/// is not given stays as it is.
#[verifier::rlimit(40)]
pub proof fn law_command_line(
    args: &[String],
    r: Result<(String, String), String>,
    c: Seq<char>,
    s: Seq<char>,
    joined: bool,
    swapped: bool,
)
    requires
        call_ensures(parse_flags, (args,), r),
        ({
            let a = text::string_views(args@);
            let (k, l) = if swapped {
                ("--state"@, "--config"@)
            } else {
                ("--config"@, "--state"@)
            };
            let (x, y) = if swapped {
                (s, c)
            } else {
                (c, s)
            };
            if joined {
                a.len() == 3 && a[1] == k + "="@ + x && a[2] == l + "="@ + y
            } else {
                a.len() == 5 && a[1] == k && a[2] == x && a[3] == l && a[4] == y
            }
        }),
    ensures
        r matches Ok((p, q)) && p@ == c && q@ == s,
{
    lemma_flag_words(c, s);
    let a = text::string_views(args@);
    reveal_with_fuel(cli::flags_from, 4);
    if joined {
        if swapped {
            assert(text::has_prefix(a[1], "--state="@));
            assert(text::has_prefix(a[2], "--config="@));
        } else {
            assert(text::has_prefix(a[1], "--config="@));
            assert(text::has_prefix(a[2], "--state="@));
        }
    }
}

#[verifier::rlimit(40)]
proof fn lemma_flag_words(c: Seq<char>, s: Seq<char>)
    ensures
        "--config"@ != "--state"@,
        "--state"@ != "--config"@,
        !text::has_prefix("--state"@, "--config="@),
        !text::has_prefix("--config"@, "--state="@),
        ({
            let x = "--config"@ + "="@ + c;
            x != "--config"@ && text::has_prefix(x, "--config="@) && x.skip(
                "--config="@.len() as int,
            ) == c && x != "--state"@
        }),
        ({
            let y = "--state"@ + "="@ + s;
            y != "--state"@ && y != "--config"@ && text::has_prefix(y, "--state="@) && y.skip(
                "--state="@.len() as int,
            ) == s && !text::has_prefix(y, "--config="@)
        }),
{
    reveal_strlit("--config");
    reveal_strlit("--state");
    reveal_strlit("--config=");
    reveal_strlit("--state=");
    reveal_strlit("=");
    let x = "--config"@ + "="@ + c;
    let y = "--state"@ + "="@ + s;
    assert(x.take(9) =~= "--config="@);
    assert(x.skip(9) =~= c);
    assert(y.take(8) =~= "--state="@);
    assert(y.skip(8) =~= s);
    assert(x[2] == 'c' && y[2] == 's');
    assert("--config"@[2] == 'c' && "--state"@[2] == 's');
    if text::has_prefix(y, "--config="@) {
        assert(y.take(9)[2] == y[2]);
        assert("--config="@[2] == 'c');
    }
    assert("--config"@.len() == 8 && "--state"@.len() == 7);
    if text::has_prefix("--config"@, "--state="@) {
        assert("--config"@.take(8)[2] == "--config"@[2]);
        assert("--state="@[2] == 's');
    }
}

/// Without arguments the usual paths are taken; an argument without its value ends the program with
/// 2, and so does one that is not known.
#[verifier::rlimit(40)]
pub proof fn law_usual_paths(args: &[String], r: Started)
    requires
        call_ensures(main_impl, (args,), r),
    ensures
        args@.len() <= 1 ==> (r matches Started::Load { line, config_path, state_path }
            && config_path@ == "/etc/dooraccess-go/config.ini"@ && state_path@
            == "/etc/dooraccess-go/automation.state"@ && line@
            == "starting dooraccess-rs (anjubao replica), config=/etc/dooraccess-go/config.ini"@),
        args@.len() == 2 && (args@[1]@ == "--config"@ || args@[1]@ == "--state"@) ==> (r matches
            Started::Exit { code, lines } && code == 2),
        args@.len() == 2 && args@[1]@ != "--config"@ && args@[1]@ != "--state"@
            && !text::has_prefix(args@[1]@, "--config="@) && !text::has_prefix(
            args@[1]@,
            "--state="@,
        ) ==> (r matches Started::Exit { code, lines } && code == 2 && lines@.len() == 2
            && lines@[0]@ == "dooraccess-rs: "@ + ("unknown argument: "@ + args@[1]@)),
{
    let a = text::string_views(args@);
    assert(a.len() == args@.len());
    reveal_with_fuel(cli::flags_from, 2);
    if args@.len() <= 1 {
        reveal_strlit("starting dooraccess-rs (anjubao replica), config=");
        reveal_strlit("/etc/dooraccess-go/config.ini");
        reveal_strlit(
            "starting dooraccess-rs (anjubao replica), config=/etc/dooraccess-go/config.ini",
        );
        assert("starting dooraccess-rs (anjubao replica), config="@ + "/etc/dooraccess-go/config.ini"@
            =~= "starting dooraccess-rs (anjubao replica), config=/etc/dooraccess-go/config.ini"@);
    }
    if args@.len() == 2 {
        assert(a[1] == args@[1]@);
        lemma_flag_words(Seq::empty(), Seq::empty());
        if r is Exit {
            let l = r->lines;
            assert(text::string_views(l@).len() == l@.len());
            assert(text::string_views(l@)[0] == l@[0]@);
        }
    }
}

/// A configuration that was loaded is used; one that was not ends the program with 1, and the log
/// says why. A run that ended well ends it with 0, and any other with 1.
pub proof fn law_exit_codes(
    loaded: Result<Config, ConfigError>,
    r: (Vec<String>, Result<Config, i32>),
    ran: Result<(), String>,
    e: (String, i32),
    cfg: Config,
    addr: String,
)
    requires
        call_ensures(after_load, (loaded,), r),
        call_ensures(after_run, (ran,), e),
        call_ensures(http_addr, (&cfg,), addr),
    ensures
        loaded matches Ok(c) ==> r.1 == Ok::<Config, i32>(c),
        loaded is Err ==> r.1 is Err && r.1->Err_0 == 1 && r.0@.len() == 1,
        e.1 == (if ran is Ok {
            0int
        } else {
            1
        }),
        ran is Ok ==> e.0@ == "dooraccess-rs exited cleanly"@,
        ran matches Err(m) ==> e.0@ == "run: "@ + m@,
        addr@ == cfg.listen.addr@ + ":"@ + text::dec_int(cfg.listen.port as int),
{
    if loaded is Err {
        assert(text::string_views(r.0@).len() == r.0@.len());
    }
}

// ---------------------------------------------------------------------------
// Watching and answering
// ---------------------------------------------------------------------------

/// Frames are judged by the addresses in the configuration: the indoor station by its number and
/// address, the stations by theirs.
#[verifier::rlimit(40)]
pub proof fn law_watch_fits_config(
    cfg: Config,
    slaves: &[String],
    ip: Option<[u8; 4]>,
    r: Option<RingWatch>,
    name: Seq<char>,
    addr: Seq<u8>,
    port: u16,
    k: int,
    st: (Seq<char>, Seq<u8>, u16),
)
    requires
        call_ensures(build_listen18022, (&cfg, slaves, ip), r),
        forms::is_number(name) && addr.len() == 4 && port >= 1,
        cfg.sip@ == forms::address(name, addr, port),
        0 <= k < cfg.stations@.len(),
        forms::is_number(st.0) && st.1.len() == 4 && st.2 >= 1,
        cfg.stations@[k].sip@ == forms::address(st.0, st.1, st.2),
    ensures
        r is Some <==> slaves@.len() > 0,
        r matches Some(w) ==> {
            &&& w.sip@ == cfg.sip@
            &&& w.indoor_name@ == name
            &&& w.indoor_ip matches Some(a) && a@ == addr
            &&& w.daemon_ip == ip
            &&& w.outdoor_by_ip@.dom().contains(forms::dotted(st.1))
            &&& exists|i: int| 0 <= i < w.outdoor_ips@.len() && (#[trigger] w.outdoor_ips@[i])@
                == st.1
        },
{
    forms::lemma_address(name, addr, port);
    forms::lemma_dotted(addr);
    forms::lemma_address(st.0, st.1, st.2);
    forms::lemma_dotted(st.1);
    if r is Some {
        let w = r->0;
        let all = cfg@.stations;
        assert(all.len() == cfg.stations@.len());
        assert(all[k].sip == cfg.stations@[k].sip@);
        let m = orchestration::station_map(all, all.len());
        lemma_in_map(all, all.len(), k, forms::dotted(st.1));
        assert(orchestration::map_texts(w.outdoor_by_ip@).dom().contains(forms::dotted(st.1)));
        assert(m.dom().contains(forms::dotted(st.1)));
        assert(orchestration::is_station(m, st.1));
        assert(listen18022::listed(w.outdoor_ips@, st.1));
    }
}

proof fn lemma_in_map(
    stations: Seq<crate::config::StationView>,
    n: nat,
    k: int,
    ip: Seq<char>,
)
    requires
        0 <= k < n <= stations.len(),
        codec::uri_parts(stations[k].sip) matches Ok((_, a, _)) && a == ip,
    ensures
        orchestration::station_map(stations, n).dom().contains(ip),
    decreases n,
{
    if k < n - 1 {
        lemma_in_map(stations, (n - 1) as nat, k, ip);
    }
}

/// Queries are answered for the number in the own address.
pub proof fn law_own_number(
    cfg: Config,
    ip: Option<[u8; 4]>,
    r: Result<NumberAnswer, String>,
    name: Seq<char>,
    addr: Seq<u8>,
    port: u16,
    src: [u8; 4],
    own: [u8; 4],
    failure: Option<&str>,
    line: String,
)
    requires
        call_ensures(build_number_query_callback, (&cfg, ip), r),
        forms::is_number(name) && addr.len() == 4 && port >= 1,
        cfg.sip@ == forms::address(name, addr, port),
        call_ensures(NumberAnswer::sent, (src, own, failure), line),
    ensures
        r matches Ok(a) && a.my_num@ == name && a.our_ip == ip && a.iface@ == cfg.iface@,
        failure is None ==> line@ == "number_query: replied to "@ + forms::dotted(src@)
            + " with our IP "@ + forms::dotted(own@),
        failure matches Some(e) ==> line@ == "number_query: send: "@ + e@,
{
    forms::lemma_address(name, addr, port);
    forms::lemma_dotted(src@);
    forms::lemma_dotted(own@);
}

// ---------------------------------------------------------------------------
// The end
// ---------------------------------------------------------------------------

/// The daemon ends when it is told to or its server ended, and the log says which; a signal comes
/// first.
pub proof fn law_the_end_begins(signalled: bool, http_ended: bool, r: Option<&'static str>)
    requires
        call_ensures(wait_over, (signalled, http_ended), r),
    ensures
        r is Some <==> signalled || http_ended,
        signalled ==> (r->0)@ == "shutdown signal received, draining"@,
        http_ended && !signalled ==> (r->0)@
            == "http8080 thread exited (fatal: bind/serve failure), draining"@,
{
}

/// Whether a step comes before another wherever both are taken.
pub open spec fn before(steps: Seq<ShutdownStep>, a: ShutdownStep, b: ShutdownStep) -> bool {
    forall|i: int, j: int|
        0 <= i < steps.len() && 0 <= j < steps.len() && #[trigger] steps[i] == a
            && #[trigger] steps[j] == b ==> i < j
}

/// The end in its order: first all are told, last are the reports waited for. No ring comes in once
/// the consumer is waited for, and no job once the worker is told to stop. What was not started is
/// not stopped, and only a failure of the server is one of the run.
pub proof fn law_the_end_in_order(
    video: bool,
    consumer: bool,
    steps: Vec<ShutdownStep>,
    http: Option<Result<(), String>>,
    r: Result<(), String>,
)
    requires
        call_ensures(shutdown_plan, (video, consumer), steps),
        call_ensures(run_result, (http,), r),
    ensures
        before(steps@, ShutdownStep::SetFlag, ShutdownStep::StopVideo),
        before(steps@, ShutdownStep::SetFlag, ShutdownStep::JoinListeners),
        before(steps@, ShutdownStep::StopVideo, ShutdownStep::JoinListeners),
        before(steps@, ShutdownStep::JoinListeners, ShutdownStep::JoinConsumer),
        before(steps@, ShutdownStep::JoinListeners, ShutdownStep::QueueShutdown),
        before(steps@, ShutdownStep::JoinConsumer, ShutdownStep::QueueShutdown),
        before(steps@, ShutdownStep::QueueShutdown, ShutdownStep::JoinWorker),
        before(steps@, ShutdownStep::JoinWorker, ShutdownStep::StopHttp),
        before(steps@, ShutdownStep::StopHttp, ShutdownStep::JoinHttp),
        before(steps@, ShutdownStep::JoinHttp, ShutdownStep::JoinPushes),
        steps@.contains(ShutdownStep::SetFlag) && steps@.contains(ShutdownStep::JoinListeners),
        steps@.contains(ShutdownStep::QueueShutdown) && steps@.contains(ShutdownStep::JoinWorker),
        steps@.contains(ShutdownStep::StopHttp) && steps@.contains(ShutdownStep::JoinHttp),
        steps@.contains(ShutdownStep::JoinPushes),
        steps@.contains(ShutdownStep::StopVideo) <==> video,
        steps@.contains(ShutdownStep::JoinConsumer) <==> consumer,
        r is Err <==> (http matches Some(Err(_))),
{
    let s = steps@;
    assert forall|i: int, j: int|
        0 <= i < s.len() && 0 <= j < s.len() && cli::rank(#[trigger] s[i]) < cli::rank(
            #[trigger] s[j],
        ) implies i < j by {
        if j < i {
            assert(cli::rank(s[j]) < cli::rank(s[i]));
        }
    }
}

} // verus!
