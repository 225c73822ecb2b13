//! The command line, what is logged at start and the order in which the daemon ends.

use vstd::prelude::*;
use vstd::slice::slice_subrange;
use vstd::string::*;

use crate::config;
use crate::config::{Config, ConfigError};
use crate::control::endpoints;
use crate::control::endpoints::Push;
use crate::info;
use crate::info::SelfDesc;
use crate::text;
use crate::text::{
    chars_of, chars_start_with, debug_string, push_dec, push_dec_int, str_eq, string_of,
};

verus! {

/// Where the configuration is, unless the command line says otherwise.
pub const DEFAULT_CONFIG_PATH: &'static str = "/etc/dooraccess-go/config.ini";

/// Where the flags are kept, unless the command line says otherwise.
pub const AUTOMATION_STATE_PATH: &'static str = "/etc/dooraccess-go/automation.state";

/// The exit code for a command line that cannot be read.
pub const EXIT_USAGE: i32 = 2;

/// The exit code for a failure.
pub const EXIT_FAILURE: i32 = 1;

/// The exit code for a clean end.
pub const EXIT_OK: i32 = 0;

// ---------------------------------------------------------------------------
// Command line
// ---------------------------------------------------------------------------

/// The paths of configuration and state that the arguments from `i` on give, where those before
/// gave `c` and `s`, or what is wrong with them.
pub open spec fn flags_from(args: Seq<Seq<char>>, i: int, c: Seq<char>, s: Seq<char>) -> Result<
    (Seq<char>, Seq<char>),
    Seq<char>,
>
    decreases args.len() - i,
{
    let a = args[i];
    if i < 0 || i >= args.len() {
        Ok((c, s))
    } else if a == "--config"@ {
        if i + 1 < args.len() {
            flags_from(args, i + 2, args[i + 1], s)
        } else {
            Err("--config requires a value (path to config.ini)"@)
        }
    } else if text::has_prefix(a, "--config="@) {
        flags_from(args, i + 1, a.skip("--config="@.len() as int), s)
    } else if a == "--state"@ {
        if i + 1 < args.len() {
            flags_from(args, i + 2, c, args[i + 1])
        } else {
            Err("--state requires a value (path to automation.state)"@)
        }
    } else if text::has_prefix(a, "--state="@) {
        flags_from(args, i + 1, c, a.skip("--state="@.len() as int))
    } else {
        Err("unknown argument: "@ + a)
    }
}

/// The paths that a command line gives; its first word is the program.
pub open spec fn flags(args: Seq<Seq<char>>) -> Result<(Seq<char>, Seq<char>), Seq<char>> {
    flags_from(args, 1, DEFAULT_CONFIG_PATH@, AUTOMATION_STATE_PATH@)
}

/// What follows `prefix` in `s`, where `s` begins with it.
fn after_prefix(s: &str, prefix: &str) -> (r: Option<String>)
    ensures
        match r {
            Some(t) => text::has_prefix(s@, prefix@) && t@ == s@.skip(prefix@.len() as int),
            None => !text::has_prefix(s@, prefix@),
        },
{
    let cs = chars_of(s);
    if !chars_start_with(cs.as_slice(), prefix) {
        return None;
    }
    let n: usize = prefix.unicode_len();
    let rest = slice_subrange(cs.as_slice(), n, cs.len());
    assert(rest@ =~= s@.skip(n as int));
    Some(string_of(rest))
}

/// Reads the command line: the paths of configuration and state.
pub fn parse_flags(args: &[String]) -> (r: Result<(String, String), String>)
    ensures
        match r {
            Ok((c, s)) => flags(text::string_views(args@)) == Ok::<_, Seq<char>>((c@, s@)),
            Err(m) => flags(text::string_views(args@)) == Err::<(Seq<char>, Seq<char>), _>(m@),
        },
{
    let ghost all = text::string_views(args@);
    let mut config_path = DEFAULT_CONFIG_PATH.to_owned();
    let mut state_path = AUTOMATION_STATE_PATH.to_owned();
    let mut i: usize = 1;
    while i < args.len()
        invariant
            1 <= i,
            i <= args@.len() || i == 1,
            all == text::string_views(args@),
            flags(all) == flags_from(all, i as int, config_path@, state_path@),
        decreases args@.len() - i,
    {
        let a = args[i].as_str();
        assert(all[i as int] == a@);
        if str_eq(a, "--config") {
            if args.len() - i <= 1 {
                return Err("--config requires a value (path to config.ini)".to_owned());
            }
            config_path = args[i + 1].clone();
            assert(all[i + 1] == config_path@);
            i = i + 2;
        } else if let Some(v) = after_prefix(a, "--config=") {
            config_path = v;
            i = i + 1;
        } else if str_eq(a, "--state") {
            if args.len() - i <= 1 {
                return Err("--state requires a value (path to automation.state)".to_owned());
            }
            state_path = args[i + 1].clone();
            assert(all[i + 1] == state_path@);
            i = i + 2;
        } else if let Some(v) = after_prefix(a, "--state=") {
            state_path = v;
            i = i + 1;
        } else {
            let mut m = "unknown argument: ".to_owned();
            m.append(a);
            return Err(m);
        }
    }
    Ok((config_path, state_path))
}

/// How the program starts.
#[derive(Debug)]
pub enum Started {
    /// It ends at once with an exit code; the lines go to the error output as they are.
    Exit { code: i32, lines: Vec<String> },
    /// It logs a line and loads its configuration.
    Load { line: String, config_path: String, state_path: String },
}

/// The lines for a command line that cannot be read.
pub open spec fn usage_lines(m: Seq<char>) -> Seq<Seq<char>> {
    seq![
        "dooraccess-rs: "@ + m,
        "usage: dooraccess-rs [--config <path>] [--state <path>]\n\tdefault config: "@
            + DEFAULT_CONFIG_PATH@ + "\n\tdefault state: "@ + AUTOMATION_STATE_PATH@,
    ]
}

/// Starts the program with a command line. One that cannot be read ends it before anything is
/// loaded.
pub fn main_impl(args: &[String]) -> (r: Started)
    ensures
        match flags(text::string_views(args@)) {
            Ok((c, s)) => {
                &&& r matches Started::Load { line, config_path, state_path }
                &&& config_path@ == c
                &&& state_path@ == s
                &&& line@ == "starting dooraccess-rs (anjubao replica), config="@ + c
            },
            Err(m) => {
                &&& r matches Started::Exit { code, lines }
                &&& code == EXIT_USAGE
                &&& text::string_views(lines@) == usage_lines(m)
            },
        },
{
    match parse_flags(args) {
        Ok((config_path, state_path)) => {
            let mut line = "starting dooraccess-rs (anjubao replica), config=".to_owned();
            line.append(config_path.as_str());
            Started::Load { line, config_path, state_path }
        },
        Err(m) => {
            let mut first = "dooraccess-rs: ".to_owned();
            first.append(m.as_str());
            let mut usage = "usage: dooraccess-rs [--config <path>] [--state <path>]\n\tdefault config: ".to_owned();
            usage.append(DEFAULT_CONFIG_PATH);
            usage.append("\n\tdefault state: ");
            usage.append(AUTOMATION_STATE_PATH);
            let mut lines: Vec<String> = Vec::new();
            lines.push(first);
            lines.push(usage);
            assert(text::string_views(lines@) =~= usage_lines(m@));
            Started::Exit { code: EXIT_USAGE, lines }
        },
    }
}

// ---------------------------------------------------------------------------
// After loading
// ---------------------------------------------------------------------------

/// The first `n` texts in quotes with commas between them.
pub open spec fn quoted(texts: Seq<Seq<char>>, n: nat) -> Seq<char>
    decreases n,
{
    if n == 0 {
        Seq::empty()
    } else if n == 1 {
        text::debug_text(texts[0])
    } else {
        quoted(texts, (n - 1) as nat) + ", "@ + text::debug_text(texts[n - 1])
    }
}

/// Texts in quotes and brackets.
pub open spec fn debug_list(texts: Seq<Seq<char>>) -> Seq<char> {
    "["@ + quoted(texts, texts.len()) + "]"@
}

fn push_debug_list(out: &mut String, texts: &[String])
    ensures
        final(out)@ == old(out)@ + debug_list(text::string_views(texts@)),
{
    let ghost all = text::string_views(texts@);
    out.append("[");
    let mut i: usize = 0;
    assert(out@ =~= old(out)@ + "["@ + quoted(all, 0));
    while i < texts.len()
        invariant
            i <= texts@.len(),
            all == text::string_views(texts@),
            out@ == old(out)@ + "["@ + quoted(all, i as nat),
        decreases texts@.len() - i,
    {
        if i > 0 {
            out.append(", ");
        }
        out.append(debug_string(texts[i].as_str()).as_str());
        assert(all[i as int] == texts@[i as int]@);
        i = i + 1;
        assert(out@ =~= old(out)@ + "["@ + quoted(all, i as nat));
    }
    out.append("]");
    assert(out@ =~= old(out)@ + debug_list(all));
}

/// A line for each of the first `n` settings that are missing.
pub open spec fn missing_lines(missing: Seq<Seq<char>>, n: nat) -> Seq<Seq<char>>
    decreases n,
{
    if n == 0 {
        Seq::empty()
    } else {
        missing_lines(missing, (n - 1) as nat).push(
            "config: field "@ + missing[n - 1] + " missing, using default"@,
        )
    }
}

/// What is logged about a configuration: settings that are missing, names no longer used,
/// warnings, and a token without an address.
pub open spec fn config_lines(m: config::ConfigView) -> Seq<Seq<char>> {
    let l1 = missing_lines(m.missing, m.missing.len());
    let l2 = if m.deprecated.len() == 0 {
        l1
    } else {
        l1.push(
            "config: "@ + debug_list(m.deprecated)
                + " fields deprecated and ignored; safe to remove from config.ini (brand/family/elev/notification removed in v0.1.6)"@,
        )
    };
    let l3 = l2 + m.warnings;
    if m.hass.token.len() > 0 && m.hass.api.len() == 0 {
        l3.push(
            "config: hass.token configured but hass.api missing; HA push disabled until cfg.hass.api is set"@,
        )
    } else {
        l3
    }
}

fn add_line(lines: &mut Vec<String>, line: String)
    ensures
        text::string_views(final(lines)@) == text::string_views(old(lines)@).push(line@),
{
    lines.push(line);
    assert(text::string_views(lines@) =~= text::string_views(old(lines)@).push(line@));
}

fn log_config(cfg: &Config) -> (lines: Vec<String>)
    ensures
        text::string_views(lines@) == config_lines(cfg@),
{
    let ghost m = cfg@;
    let mut lines: Vec<String> = Vec::new();
    let missing = cfg.missing_fields();
    let mut i: usize = 0;
    assert(text::string_views(lines@) =~= missing_lines(m.missing, 0));
    while i < missing.len()
        invariant
            i <= missing@.len(),
            text::string_views(missing@) == m.missing,
            text::string_views(lines@) == missing_lines(m.missing, i as nat),
        decreases missing@.len() - i,
    {
        let mut line = "config: field ".to_owned();
        line.append(missing[i].as_str());
        line.append(" missing, using default");
        assert(m.missing[i as int] == missing@[i as int]@);
        add_line(&mut lines, line);
        i = i + 1;
    }
    let dep = cfg.deprecated_fields();
    if dep.len() > 0 {
        let mut line = "config: ".to_owned();
        push_debug_list(&mut line, dep);
        line.append(
            " fields deprecated and ignored; safe to remove from config.ini (brand/family/elev/notification removed in v0.1.6)",
        );
        add_line(&mut lines, line);
    }
    let ghost l2 = text::string_views(lines@);
    let warnings = cfg.parser_warnings();
    let mut k: usize = 0;
    assert(l2 =~= l2 + m.warnings.take(0));
    while k < warnings.len()
        invariant
            k <= warnings@.len(),
            text::string_views(warnings@) == m.warnings,
            text::string_views(lines@) == l2 + m.warnings.take(k as int),
        decreases warnings@.len() - k,
    {
        add_line(&mut lines, warnings[k].clone());
        assert(m.warnings[k as int] == warnings@[k as int]@);
        k = k + 1;
        assert(text::string_views(lines@) =~= l2 + m.warnings.take(k as int));
    }
    assert(m.warnings.take(k as int) =~= m.warnings);
    if cfg.hass.token.as_str().unicode_len() > 0 && cfg.hass.api.as_str().unicode_len() == 0 {
        add_line(
            &mut lines,
            "config: hass.token configured but hass.api missing; HA push disabled until cfg.hass.api is set".to_owned(),
        );
    }
    lines
}

/// What comes of loading the configuration: lines for the log, and the exit code where it failed.
pub fn after_load(loaded: Result<Config, ConfigError>) -> (r: (Vec<String>, Result<Config, i32>))
    ensures
        match loaded {
            Ok(c) => r.1 == Ok::<Config, i32>(c) && text::string_views(r.0@) == config_lines(c@),
            Err(e) => r.1 == Err::<Config, i32>(EXIT_FAILURE) && text::string_views(r.0@) == seq![
                "load config: "@ + config::fault_text(e@),
            ],
        },
{
    match loaded {
        Ok(c) => {
            let lines = log_config(&c);
            (lines, Ok(c))
        },
        Err(e) => {
            let mut line = "load config: ".to_owned();
            line.append(e.message().as_str());
            let mut lines: Vec<String> = Vec::new();
            lines.push(line);
            assert(text::string_views(lines@) =~= seq!["load config: "@ + config::fault_text(e@)]);
            (lines, Err(EXIT_FAILURE))
        },
    }
}

/// How the program ends after it ran: a line for the log and the exit code.
pub fn after_run(ran: Result<(), String>) -> (r: (String, i32))
    ensures
        match ran {
            Ok(_) => r.0@ == "dooraccess-rs exited cleanly"@ && r.1 == EXIT_OK,
            Err(e) => r.0@ == "run: "@ + e@ && r.1 == EXIT_FAILURE,
        },
{
    match ran {
        Ok(_) => ("dooraccess-rs exited cleanly".to_owned(), EXIT_OK),
        Err(e) => {
            let mut line = "run: ".to_owned();
            line.append(e.as_str());
            (line, EXIT_FAILURE)
        },
    }
}

// ---------------------------------------------------------------------------
// Lines at start
// ---------------------------------------------------------------------------

/// `on` or `off`.
pub fn on_off(b: bool) -> (out: &'static str)
    ensures
        out@ == if b {
            "on"@
        } else {
            "off"@
        },
{
    if b {
        "on"
    } else {
        "off"
    }
}

/// `true` or `false`.
pub fn bool_str(b: bool) -> (out: String)
    ensures
        out@ == info::flag_text(b),
{
    if b {
        "true".to_owned()
    } else {
        "false".to_owned()
    }
}

/// The lines that show how the daemon is set up.
pub open spec fn banner_lines(sd: info::DescView, m: config::ConfigView) -> Seq<Seq<char>> {
    let lines = seq![
        "banner: dooraccess-rs "@ + sd.version + " (brand="@ + sd.brand + ", pid="@ + text::dec(
            sd.pid as nat,
        ) + ")"@,
        "banner: monitor="@ + sd.monitor + " stations="@ + text::dec(sd.stations.len())
            + " iface="@ + m.iface,
        "banner: listen="@ + m.listen.addr + ":"@ + text::dec_int(m.listen.port)
            + " video.forward="@ + info::flag_text(m.video.forward),
    ];
    match sd.hass_reachable {
        Some(b) => lines.push("banner: hass_reachable="@ + info::flag_text(b)),
        None => lines,
    }
}

/// The lines that show how the daemon is set up.
pub fn render_banner(sd: &SelfDesc, cfg: &Config) -> (lines: Vec<String>)
    ensures
        text::string_views(lines@) == banner_lines(sd@, cfg@),
{
    let mut lines: Vec<String> = Vec::new();
    assert(text::string_views(lines@) =~= Seq::<Seq<char>>::empty());
    let mut l0 = "banner: dooraccess-rs ".to_owned();
    l0.append(sd.version.as_str());
    l0.append(" (brand=");
    l0.append(sd.brand.as_str());
    l0.append(", pid=");
    push_dec(&mut l0, sd.pid as u64);
    l0.append(")");
    add_line(&mut lines, l0);
    let mut l1 = "banner: monitor=".to_owned();
    l1.append(sd.monitor.as_str());
    l1.append(" stations=");
    push_dec(&mut l1, sd.stations.len() as u64);
    l1.append(" iface=");
    l1.append(cfg.iface.as_str());
    add_line(&mut lines, l1);
    let mut l2 = "banner: listen=".to_owned();
    l2.append(cfg.listen.addr.as_str());
    l2.append(":");
    push_dec_int(&mut l2, cfg.listen.port);
    l2.append(" video.forward=");
    l2.append(bool_str(cfg.video.forward).as_str());
    add_line(&mut lines, l2);
    if let Some(b) = sd.hass_reachable {
        let mut l3 = "banner: hass_reachable=".to_owned();
        l3.append(bool_str(b).as_str());
        add_line(&mut lines, l3);
    }
    assert(text::string_views(lines@) =~= banner_lines(sd@, cfg@));
    lines
}

/// The line about forwarding video.
pub fn video_line(cfg: &Config) -> (line: String)
    ensures
        line@ == if cfg@.video.forward {
            "video: forward enabled, format="@ + cfg@.video.format
        } else {
            "video: forward disabled (cfg.video.forward=false)"@
        },
{
    if cfg.video.forward {
        let mut line = "video: forward enabled, format=".to_owned();
        line.append(cfg.video.format.as_str());
        line
    } else {
        "video: forward disabled (cfg.video.forward=false)".to_owned()
    }
}

/// The line about the interfaces to listen on, or why there are none.
pub fn slaves_line(slaves: Result<&[String], &str>, iface: &str) -> (line: String)
    ensures
        line@ == (match slaves {
            Ok(s) => "listeners: slaves="@ + debug_list(text::string_views(s@))
                + " (resolved from iface="@ + text::debug_text(iface@) + ")"@,
            Err(e) => "listeners: resolve iface list failed: "@ + e@
                + " (listeners will not start)"@,
        }),
{
    match slaves {
        Ok(s) => {
            let mut line = "listeners: slaves=".to_owned();
            push_debug_list(&mut line, s);
            line.append(" (resolved from iface=");
            line.append(debug_string(iface).as_str());
            line.append(")");
            line
        },
        Err(e) => {
            let mut line = "listeners: resolve iface list failed: ".to_owned();
            line.append(e);
            line.append(" (listeners will not start)");
            line
        },
    }
}

/// The line about listening on port 18022.
pub fn listen18022_line(slaves: &[String]) -> (line: String)
    ensures
        line@ == if slaves@.len() == 0 {
            "listen18022: no slaves resolved, will not start"@
        } else {
            "listen18022: started on "@ + debug_list(text::string_views(slaves@))
                + " (PROMISC, BPF tcp:18022)"@
        },
{
    if slaves.len() == 0 {
        return "listen18022: no slaves resolved, will not start".to_owned();
    }
    let mut line = "listen18022: started on ".to_owned();
    push_debug_list(&mut line, slaves);
    line.append(" (PROMISC, BPF tcp:18022)");
    line
}

/// The line about listening on port 6672, where there are interfaces.
pub fn listen6672_line(slaves: &[String]) -> (r: Option<String>)
    ensures
        match r {
            Some(l) => slaves@.len() > 0 && l@ == "listen6672: started on "@ + debug_list(
                text::string_views(slaves@),
            ) + " (PROMISC, BPF udp:6672)"@,
            None => slaves@.len() == 0,
        },
{
    if slaves.len() == 0 {
        return None;
    }
    let mut line = "listen6672: started on ".to_owned();
    push_debug_list(&mut line, slaves);
    line.append(" (PROMISC, BPF udp:6672)");
    Some(line)
}

/// The address that the server for requests listens on.
pub fn http_addr(cfg: &Config) -> (out: String)
    ensures
        out@ == cfg@.listen.addr + ":"@ + text::dec_int(cfg@.listen.port),
{
    let mut out = cfg.listen.addr.clone();
    out.append(":");
    push_dec_int(&mut out, cfg.listen.port);
    out
}

/// The line about the flags.
pub fn flags_line(auto_unlock: bool, auto_hangup: bool, source: &str) -> (line: String)
    ensures
        line@ == "automation: auto_unlock="@ + (if auto_unlock {
            "on"@
        } else {
            "off"@
        }) + " auto_hangup="@ + (if auto_hangup {
            "on"@
        } else {
            "off"@
        }) + " (source="@ + source@ + ")"@,
{
    let mut line = "automation: auto_unlock=".to_owned();
    line.append(on_off(auto_unlock));
    line.append(" auto_hangup=");
    line.append(on_off(auto_hangup));
    line.append(" (source=");
    line.append(source);
    line.append(")");
    line
}

/// The event that reports the flags at start.
pub fn flags_push(auto_unlock: bool, auto_hangup: bool) -> (p: Push)
    ensures
        p@ == (endpoints::PushView {
            event: "automation_state"@,
            fields: seq![
                ("auto_unlock"@, info::flag_text(auto_unlock)),
                ("auto_hangup"@, info::flag_text(auto_hangup)),
            ],
        }),
{
    let mut fields: Vec<(String, String)> = Vec::new();
    fields.push(("auto_unlock".to_owned(), bool_str(auto_unlock)));
    fields.push(("auto_hangup".to_owned(), bool_str(auto_hangup)));
    let p = Push { event: "automation_state".to_owned(), fields };
    assert(p@.fields =~= seq![
        ("auto_unlock"@, info::flag_text(auto_unlock)),
        ("auto_hangup"@, info::flag_text(auto_hangup)),
    ]);
    p
}

// ---------------------------------------------------------------------------
// The end
// ---------------------------------------------------------------------------

/// Why the daemon stops waiting: the line for the log, or none as long as it goes on. It ends on a
/// signal, and when the server for requests is gone.
pub fn wait_over(signalled: bool, http_ended: bool) -> (r: Option<&'static str>)
    ensures
        match r {
            Some(l) => if signalled {
                l@ == "shutdown signal received, draining"@
            } else {
                http_ended && l@ == "http8080 thread exited (fatal: bind/serve failure), draining"@
            },
            None => !signalled && !http_ended,
        },
{
    if signalled {
        Some("shutdown signal received, draining")
    } else if http_ended {
        Some("http8080 thread exited (fatal: bind/serve failure), draining")
    } else {
        None
    }
}

/// A step of the daemon's end.
#[derive(Debug, Clone, Copy, PartialEq, Eq, Structural)]
pub enum ShutdownStep {
    /// Tell all tasks that the end has come.
    SetFlag,
    /// End the video sessions, which ends the answers that carry video.
    StopVideo,
    /// Wait for the listeners; after that no ring comes in.
    JoinListeners,
    /// Wait for the task that reacts to rings; after that no unlock is queued.
    JoinConsumer,
    /// Queue the end of the worker behind all other jobs.
    QueueShutdown,
    /// Wait for the worker.
    JoinWorker,
    /// Take no more requests and wait for those under way.
    StopHttp,
    /// Wait for the server for requests.
    JoinHttp,
    /// Wait for the tasks that report events.
    JoinPushes,
}

/// When a step comes.
pub open spec fn rank(s: ShutdownStep) -> int {
    match s {
        ShutdownStep::SetFlag => 0,
        ShutdownStep::StopVideo => 1,
        ShutdownStep::JoinListeners => 2,
        ShutdownStep::JoinConsumer => 3,
        ShutdownStep::QueueShutdown => 4,
        ShutdownStep::JoinWorker => 5,
        ShutdownStep::StopHttp => 6,
        ShutdownStep::JoinHttp => 7,
        ShutdownStep::JoinPushes => 8,
    }
}

/// The steps of the end, in order. Video sessions and the task that reacts to rings are there only
/// where they were started.
pub fn shutdown_plan(video: bool, consumer: bool) -> (steps: Vec<ShutdownStep>)
    ensures
        forall|i: int, j: int|
            0 <= i < j < steps@.len() ==> rank(#[trigger] steps@[i]) < rank(#[trigger] steps@[j]),
        forall|s: ShutdownStep| #[trigger]
            steps@.contains(s) <==> ((s is StopVideo ==> video) && (s is JoinConsumer ==> consumer)),
{
    let mut steps: Vec<ShutdownStep> = Vec::new();
    steps.push(ShutdownStep::SetFlag);
    if video {
        steps.push(ShutdownStep::StopVideo);
    }
    steps.push(ShutdownStep::JoinListeners);
    if consumer {
        steps.push(ShutdownStep::JoinConsumer);
    }
    steps.push(ShutdownStep::QueueShutdown);
    steps.push(ShutdownStep::JoinWorker);
    steps.push(ShutdownStep::StopHttp);
    steps.push(ShutdownStep::JoinHttp);
    steps.push(ShutdownStep::JoinPushes);
    proof {
        let v: int = if video {
            1
        } else {
            0
        };
        let c: int = if consumer {
            1
        } else {
            0
        };
        assert forall|s: ShutdownStep| #[trigger]
            steps@.contains(s) <==> ((s is StopVideo ==> video) && (s is JoinConsumer
                ==> consumer)) by {
            let at: int = match s {
                ShutdownStep::SetFlag => 0,
                ShutdownStep::StopVideo => 1,
                ShutdownStep::JoinListeners => 1 + v,
                ShutdownStep::JoinConsumer => 2 + v,
                ShutdownStep::QueueShutdown => 2 + v + c,
                ShutdownStep::JoinWorker => 3 + v + c,
                ShutdownStep::StopHttp => 4 + v + c,
                ShutdownStep::JoinHttp => 5 + v + c,
                ShutdownStep::JoinPushes => 6 + v + c,
            };
            if (s is StopVideo ==> video) && (s is JoinConsumer ==> consumer) {
                assert(steps@[at] == s);
            }
        }
    }
    steps
}

/// What running came to, where the server for requests ended with `http`, or crashed: only an
/// error of that server counts as one.
pub fn run_result(http: Option<Result<(), String>>) -> (r: Result<(), String>)
    ensures
        match http {
            Some(Err(e)) => r == Err::<(), String>(e),
            _ => r is Ok,
        },
{
    match http {
        Some(Err(e)) => Err(e),
        _ => Ok(()),
    }
}

} // verus!
