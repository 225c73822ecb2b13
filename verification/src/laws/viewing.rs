//! Video, and what the daemon says of itself.

use vstd::prelude::*;
use vstd::string::*;
use vstd::utf8::*;

use super::forms;
use super::replies;
use super::serving;
use crate::control::endpoints;
use crate::control::routes::{Action, Server};
use crate::control::video;
use crate::control::video::{after_peek, after_stream, before_peek, handle_video_dynamic,
    respond_video_start, respond_video_stop, serve_video_stream, ttl_next, ttl_tick, ttl_wait,
    BesideNext, IdrWait, Peek, PeekNext, StreamOver, StreamTimes, TtlTick, VideoStart};
use crate::control::written;
use crate::httpx::header;
use crate::httpx::json;
use crate::httpx::json::{JsonOptions, JsonValue};
use crate::httpx::{Reply, Request, ResponseWriter};
use crate::info;
use crate::text;

verus! {

// ---------------------------------------------------------------------------
// Starting and stopping
// ---------------------------------------------------------------------------

/// Where video is not forwarded every request for it is answered with 503.
pub proof fn law_video_is_off<W: ResponseWriter>(s: &mut Server, w: &mut W, r: Request, a: Action)
    requires
        replies::unsent(old(w).reply()),
        call_ensures(Server::serve_http::<W>, (s, w, &r), a),
        !old(s).video,
        (r.url.path@ == "/video/start"@ || r.url.path@ == "/video/stop"@) && serving::posts_json(r)
            || text::has_prefix(r.url.path@, "/video/"@) && r.url.path@ != "/video/start"@
            && r.url.path@ != "/video/stop"@,
    ensures
        a is Done,
        serving::untouched(*final(s), *old(s)),
        replies::complains(final(w).reply(), 503, "video forward not enabled"@),
{
    serving::lemma_paths_differ();
    if serving::posts_json(r) {
        serving::lemma_posts_json(r, old(w).reply());
    }
    replies::lemma_error_reply(old(w).reply(), 503, "video forward not enabled"@);
    assert(a@ is Done ==> a is Done);
}

/// The body of a request to start or stop.
pub open spec fn video_body(uri: Seq<char>) -> Seq<u8> {
    encode_utf8("{\"outdoor\":\""@ + uri + "\"}"@)
}

#[verifier::rlimit(40)]
proof fn lemma_video_body(uri: String)
    requires
        serving::plain(uri@),
    ensures
        video::video_body(video_body(uri@)) == Ok::<Seq<char>, Seq<char>>(uri@),
{
    reveal_strlit("outdoor");
    let u = uri@;
    let fs = seq![("outdoor", JsonValue::String(uri))];
    let opts = JsonOptions { escape_html: true, trailing_newline: false };
    written::law_records_are_json(fs, opts);
    json::lemma_record(fs, true);
    let a = json::string_text(u, true);
    let ps = seq![("outdoor"@, u)];
    assert(json::record_pairs(fs, true) =~= seq![("outdoor"@, a)]);
    assert(written::text_members(ps, true) =~= seq![("outdoor"@, a)]);
    assert forall|i: int| 0 <= i < u.len() implies json::char_text(#[trigger] u[i], true)
        == seq![u[i]] by {
        assert(serving::plain_char(u[i]));
        serving::lemma_plain_char(u[i]);
    }
    assert(written::unescaped("outdoor"@, true)) by {
        assert forall|i: int| 0 <= i < 7 implies json::char_text(#[trigger] "outdoor"@[i], true)
            == seq!["outdoor"@[i]] by {}
    }
    serving::lemma_unescaped(u);
    written::law_text_fields_read_back(ps, "outdoor"@, true);
    reveal_with_fuel(written::last_text, 2);
    assert(text::eq_no_case("outdoor"@, "outdoor"@));
    replies::lemma_object_one("outdoor"@, a);
    reveal_strlit("{\"outdoor\":\"");
    reveal_strlit("\"}");
    assert(seq!['{', '"'] + "outdoor"@ + seq!['"', ':'] + a + seq!['}'] =~= "{\"outdoor\":\""@ + u
        + "\"}"@);
}

/// Video is started and stopped at the station that the request names, where that is one of the
/// configured ones; another is refused with 400.
#[verifier::rlimit(40)]
pub proof fn law_video_of_stations<W: ResponseWriter>(
    s: &mut Server,
    w: &mut W,
    r: Request,
    a: Action,
    uri: String,
    name: Seq<char>,
    ip: Seq<u8>,
    port: u16,
)
    requires
        replies::unsent(old(w).reply()),
        call_ensures(Server::serve_http::<W>, (s, w, &r), a),
        old(s).video,
        serving::posts_json(r),
        r.url.path@ == "/video/start"@ || r.url.path@ == "/video/stop"@,
        forms::is_number(name) && ip.len() == 4 && port >= 1,
        uri@ == forms::address(name, ip, port),
        r.body@ == video_body(uri@),
    ensures
        serving::untouched(*final(s), *old(s)),
        ({
            let known = exists|i: int|
                0 <= i < old(s).cfg.stations@.len() && (#[trigger] old(s).cfg.stations@[i]).sip@
                    == uri@;
            &&& !known ==> a is Done && replies::complains(
                final(w).reply(),
                400,
                "outdoor not in cfg.stations allowlist"@,
            )
            &&& known ==> final(w).reply() == old(w).reply()
            &&& known && r.url.path@ == "/video/start"@ ==> (a matches Action::StartVideo(o)
                && o.uri@ == uri@ && forms::packs(o.bcd@, name) && o.ip@ == forms::dotted(ip)
                && o.port == port)
            &&& known && r.url.path@ == "/video/stop"@ ==> (a matches Action::StopVideo(o)
                && o.uri@ == uri@ && forms::packs(o.bcd@, name) && o.ip@ == forms::dotted(ip)
                && o.port == port)
        }),
{
    serving::lemma_paths_differ();
    serving::lemma_posts_json(r, old(w).reply());
    serving::lemma_address_plain(name, ip, port);
    lemma_video_body(uri);
    forms::lemma_address(name, ip, port);
    forms::lemma_number(name);
    replies::lemma_error_reply(old(w).reply(), 400, "outdoor not in cfg.stations allowlist"@);
    let all = old(s)@.cfg.stations;
    assert(all.len() == old(s).cfg.stations@.len());
    assert forall|i: int| 0 <= i < all.len() implies (#[trigger] all[i]).sip == old(
        s,
    ).cfg.stations@[i].sip@ by {}
    if exists|i: int|
        0 <= i < old(s).cfg.stations@.len() && (#[trigger] old(s).cfg.stations@[i]).sip@ == uri@ {
        let i = choose|i: int|
            0 <= i < old(s).cfg.stations@.len() && (#[trigger] old(s).cfg.stations@[i]).sip@
                == uri@;
        assert(all[i].sip == uri@);
        assert(video::is_allowed(all, uri@));
    }
    assert(a@ is Done ==> a is Done);
    assert(a@ is StartVideo ==> a is StartVideo);
    assert(a@ is StopVideo ==> a is StopVideo);
}

/// What is answered when a session was to be started or stopped.
pub proof fn law_video_answers<W: ResponseWriter>(w: &mut W, v: VideoStart)
    requires
        replies::unsent(old(w).reply()),
        call_ensures(respond_video_start::<W>, (w, &v), ()),
    ensures
        v matches VideoStart::Started { session_id, stream_url, ttl_secs } ==> replies::says(
            final(w).reply(),
            200,
            "{\"session_id\":"@ + json::string_text(session_id@, true) + ",\"stream_url\":"@
                + json::string_text(stream_url@, true) + ",\"ttl\":"@ + text::dec_int(
                ttl_secs as int,
            ) + "}"@,
        ),
        v matches VideoStart::Conflict(m) ==> replies::complains(final(w).reply(), 409, m@),
        v matches VideoStart::Failed(m) ==> replies::complains(final(w).reply(), 503, m@),
{
    let before = old(w).reply();
    match v {
        VideoStart::Started { session_id, stream_url, ttl_secs } => {
            let (x, y, z) = (
                json::string_text(session_id@, true),
                json::string_text(stream_url@, true),
                text::dec_int(ttl_secs as int),
            );
            lemma_started(x, y, z);
            let t = json::object_of(
                seq![("session_id"@, x), ("stream_url"@, y), ("ttl"@, z)],
                true,
            );
            assert(t.len() > 0);
            replies::lemma_json(before, 200, t);
        },
        VideoStart::Conflict(m) => {
            replies::lemma_error_reply(before, 409, m@);
        },
        VideoStart::Failed(m) => {
            replies::lemma_error_reply(before, 503, m@);
        },
    }
}

#[verifier::rlimit(40)]
proof fn lemma_started(x: Seq<char>, y: Seq<char>, z: Seq<char>)
    ensures
        json::object_of(seq![("session_id"@, x), ("stream_url"@, y), ("ttl"@, z)], true)
            == "{\"session_id\":"@ + x + ",\"stream_url\":"@ + y + ",\"ttl\":"@ + z + "}"@,
{
    assert(replies::is_key("session_id"@) && seq!['{', '"'] + "session_id"@ + seq!['"', ':']
        =~= "{\"session_id\":"@) by {
        reveal_strlit("session_id");
        reveal_strlit("{\"session_id\":");
    }
    assert(replies::is_key("stream_url"@) && seq![',', '"'] + "stream_url"@ + seq!['"', ':']
        =~= ",\"stream_url\":"@) by {
        reveal_strlit("stream_url");
        reveal_strlit(",\"stream_url\":");
    }
    assert(replies::is_key("ttl"@) && seq![',', '"'] + "ttl"@ + seq!['"', ':'] =~= ",\"ttl\":"@)
        by {
        reveal_strlit("ttl");
        reveal_strlit(",\"ttl\":");
    }
    assert(seq!['}'] =~= "}"@) by {
        reveal_strlit("}");
    }
    replies::lemma_object_three("session_id"@, x, "stream_url"@, y, "ttl"@, z);
    let a = "{\"session_id\":"@ + x;
    replies::lemma_regroup(a, seq![',', '"'], "stream_url"@, seq!['"', ':']);
    let b = a + ",\"stream_url\":"@ + y;
    replies::lemma_regroup(b, seq![',', '"'], "ttl"@, seq!['"', ':']);
}

/// A session that was stopped, or was not there, is answered with 0.
pub proof fn law_video_stop_is_answered<W: ResponseWriter>(w: &mut W)
    requires
        replies::unsent(old(w).reply()),
        call_ensures(respond_video_stop::<W>, (w,), ()),
    ensures
        replies::says(final(w).reply(), 200, "{\"result\":0}"@),
{
    replies::lemma_codes();
    replies::lemma_result_texts();
    replies::lemma_result_reply(old(w).reply(), 200, 0);
}

// ---------------------------------------------------------------------------
// Watching
// ---------------------------------------------------------------------------

/// Below `/video/` the first part of a path is the session and the rest the resource; a path of
/// one part is answered with 404.
#[verifier::rlimit(40)]
pub proof fn law_video_paths<W: ResponseWriter>(
    s: &mut Server,
    w: &mut W,
    r: Request,
    a: Action,
    id: Seq<char>,
    resource: Option<Seq<char>>,
)
    requires
        replies::unsent(old(w).reply()),
        call_ensures(Server::serve_http::<W>, (s, w, &r), a),
        old(s).video,
        forall|i: int| 0 <= i < id.len() ==> id[i] != '/',
        r.url.path@ == "/video/"@ + id + (match resource {
            Some(x) => seq!['/'] + x,
            None => Seq::empty(),
        }),
        r.url.path@ != "/video/start"@,
        r.url.path@ != "/video/stop"@,
    ensures
        serving::untouched(*final(s), *old(s)),
        resource matches Some(x) ==> (a matches Action::Watch { session_id, resource: y }
            && session_id@ == id && y@ == x) && final(w).reply() == old(w).reply(),
        resource is None ==> a is Done && replies::complains(
            final(w).reply(),
            404,
            "video: malformed path"@,
        ),
{
    serving::lemma_paths_differ();
    lemma_video_path(r.url.path@, id, resource);
    replies::lemma_error_reply(old(w).reply(), 404, "video: malformed path"@);
    assert(a@ is Done ==> a is Done);
    assert(a@ is Watch ==> a is Watch);
}

proof fn lemma_video_path(p: Seq<char>, id: Seq<char>, resource: Option<Seq<char>>)
    requires
        forall|i: int| 0 <= i < id.len() ==> id[i] != '/',
        p == "/video/"@ + id + (match resource {
            Some(x) => seq!['/'] + x,
            None => Seq::empty(),
        }),
    ensures
        text::has_prefix(p, "/video/"@),
        video::video_path(p) == match resource {
            Some(x) => Some((id, x)),
            None => None,
        },
{
    reveal_strlit("/video/");
    assert(p.take(7) =~= "/video/"@);
    let rest = p.skip(7);
    match resource {
        Some(x) => {
            assert(rest =~= id + seq!['/'] + x);
            assert forall|j: int| 0 <= j < id.len() implies rest[j] != '/' by {
                assert(rest[j] == id[j]);
            }
            text::lemma_find_at(rest, '/', id.len() as int);
            assert(rest.take(id.len() as int) =~= id);
            assert(rest.skip(id.len() as int + 1) =~= x);
        },
        None => {
            assert(rest =~= id);
            text::lemma_find_none(rest, '/');
        },
    }
}

/// Only the stream of a session that is there is streamed, to one who gets it. A name that is none
/// is refused with 400, whatever the method; a session that is not there, and a resource that is
/// not known, with 404; a still picture with 503.
#[verifier::rlimit(40)]
pub proof fn law_resources<W: ResponseWriter>(
    valid_id: bool,
    found: bool,
    resource: &str,
    w: &mut W,
    r: Request,
    stream: bool,
)
    requires
        replies::unsent(old(w).reply()),
        call_ensures(handle_video_dynamic::<W>, (valid_id, found, resource, w, &r), stream),
    ensures
        ({
            let y = final(w).reply();
            let gets = r.method@ == "GET"@;
            &&& stream <==> valid_id && gets && found && resource@ == "stream.flv"@
            &&& stream ==> y == old(w).reply()
            &&& !valid_id ==> replies::complains(y, 400, "invalid session_id"@)
            &&& valid_id && !gets ==> replies::has_field(y, "Allow"@, "GET"@)
                && replies::complains(y, 405, "method "@ + r.method@ + " not allowed; use GET"@)
            &&& valid_id && gets && !found ==> replies::complains(
                y,
                404,
                "video: session not found"@,
            )
            &&& valid_id && gets && found && resource@ != "stream.flv"@ && resource@
                != "snapshot.jpg"@ ==> replies::complains(y, 404, "video: unknown resource"@)
            &&& valid_id && gets && found && resource@ == "snapshot.jpg"@ ==> (y.sent matches Some(
                h,
            ) && h.status == 503)
        }),
{
    let before = old(w).reply();
    reveal_strlit("stream.flv");
    reveal_strlit("snapshot.jpg");
    assert("stream.flv"@.len() != "snapshot.jpg"@.len());
    replies::lemma_error_reply(before, 400, "invalid session_id"@);
    replies::lemma_error_reply(before, 404, "video: session not found"@);
    replies::lemma_error_reply(before, 404, "video: unknown resource"@);
    replies::lemma_error_reply(
        before,
        503,
        "snapshot transcoding not supported on this hardware; HACS should fall back to stream-source ffmpeg"@,
    );
    serving::lemma_refused(before, r.method@, "GET"@);
    serving::lemma_refusal_texts(r.method@);
}

/// A stream begins only once a key frame came, in a session that is open, with all that a decoder
/// needs. That no frame came in time, or something is missing, is answered with 504, and that the
/// session is closed with 503.
#[verifier::rlimit(40)]
pub proof fn law_streams_begin<W: ResponseWriter>(
    wait: IdrWait,
    closed: bool,
    complete: bool,
    w: &mut W,
    streams: bool,
)
    requires
        replies::unsent(old(w).reply()),
        !old(w).reply().header.dom().contains("Content-Length"@),
        call_ensures(serve_video_stream::<W>, (wait, closed, complete, w), streams),
    ensures
        ({
            let y = final(w).reply();
            &&& streams <==> wait is Ready && !closed && complete
            &&& streams ==> replies::carries(y, 200, Seq::empty()) && replies::has_field(
                y,
                "Content-Type"@,
                "video/x-flv"@,
            ) && replies::has_field(y, "Cache-Control"@, "no-store"@) && (y.sent->0).chunked
            &&& wait is Timeout ==> replies::complains(
                y,
                504,
                "video: no keyframe within startup timeout; outdoor not pushing RTP"@,
            )
            &&& wait is Closed || wait is Ready && closed ==> replies::complains(
                y,
                503,
                "video: session closed"@,
            )
            &&& wait is Ready && !closed && !complete ==> replies::complains(
                y,
                504,
                "video: stream not ready (missing SPS/PPS)"@,
            )
        }),
{
    let before = old(w).reply();
    replies::lemma_error_reply(
        before,
        504,
        "video: no keyframe within startup timeout; outdoor not pushing RTP"@,
    );
    replies::lemma_error_reply(before, 503, "video: session closed"@);
    replies::lemma_error_reply(before, 504, "video: stream not ready (missing SPS/PPS)"@);
    header::lemma_names();
    assert("Cache-Control"@.len() == 13 && header::canonical("Cache-Control"@) == "Cache-Control"@)
        by {
        reveal_strlit("Cache-Control");
        header::lemma_canonical_ascii("Cache-Control"@);
        assert(header::ascii_canonical("Cache-Control"@) =~= "Cache-Control"@);
    }
}

/// While a session is watched it is kept alive: when the time has come and then every period, and
/// no look at whether the stream has ended is more than 20 milliseconds away.
pub proof fn law_sessions_are_kept_alive(
    now: u64,
    next: u64,
    period: u64,
    t: TtlTick,
    wait: u64,
    times: StreamTimes,
)
    requires
        now + period <= u64::MAX,
        call_ensures(ttl_tick, (now, next, period), t),
        call_ensures(ttl_wait, (now, next), wait),
        call_ensures(StreamTimes::default, (), times),
    ensures
        t.refresh <==> next <= now,
        t.refresh ==> t.next - now == period,
        !t.refresh ==> t.next == next,
        wait <= 20_000_000,
        t.refresh ==> wait == 0,
        !t.refresh ==> now + wait <= next && (wait == 20_000_000 || now + wait == next),
        times.startup_timeout_ms == 5_000,
        times.ttl_refresh_period_ms == 30_000,
{
}

/// A session is kept alive until its stream is done or it is gone; a watcher who is gone, or whose
/// connection broke, ends the stream, and what a watcher sends does not.
pub proof fn law_watchers(
    done: bool,
    refreshed: Option<bool>,
    n: BesideNext,
    p: Peek,
    after: PeekNext,
    before: PeekNext,
)
    requires
        call_ensures(ttl_next, (done, refreshed), n),
        call_ensures(after_peek, (p,), after),
        call_ensures(before_peek, (done,), before),
    ensures
        n is End <==> done || refreshed == Some(false),
        after is Close <==> p is Ended || p is Broken,
        after is Park <==> p is Data,
        after is Again <==> p is Nothing,
        before is End <==> done,
        before !is Close,
{
}

/// Once a stream has ended its session is stopped, and only a failure is logged.
pub proof fn law_stream_ends(failure: Option<&str>, id: &str, o: StreamOver)
    requires
        call_ensures(after_stream, (failure, id), o),
    ensures
        o.stop@ == id@,
        o.line is Some <==> failure is Some,
        failure matches Some(e) ==> (o.line->0)@ == "video: stream writer exited: "@ + e@,
{
}

// ---------------------------------------------------------------------------
// The daemon
// ---------------------------------------------------------------------------

/// The stations as they are listed.
pub open spec fn station_list(sips: Seq<Seq<char>>) -> Seq<char>
    decreases sips.len(),
{
    if sips.len() == 0 {
        Seq::empty()
    } else {
        station_list(sips.drop_last()) + (if sips.len() == 1 {
            "{\"sip\":"@
        } else {
            ",{\"sip\":"@
        }) + json::string_text(sips.last(), false) + "}"@
    }
}

proof fn lemma_station_list(sips: Seq<Seq<char>>, n: nat)
    requires
        n <= sips.len(),
    ensures
        info::stations_text(sips, n) == station_list(sips.take(n as int)),
    decreases n,
{
    if n > 0 {
        lemma_station_list(sips, (n - 1) as nat);
        let now = sips.take(n as int);
        assert(now.drop_last() =~= sips.take(n - 1));
        let q = json::string_text(sips[n - 1], false);
        let ps = seq![("sip"@, q)];
        assert(replies::is_key("sip"@) && seq!['{', '"'] + "sip"@ + seq!['"', ':'] =~= "{\"sip\":"@
            && seq![',', '{', '"'] + "sip"@ + seq!['"', ':'] =~= ",{\"sip\":"@) by {
            reveal_strlit("sip");
            reveal_strlit("{\"sip\":");
            reveal_strlit(",{\"sip\":");
        }
        assert(seq!['}'] =~= "}"@) by {
            reveal_strlit("}");
        }
        replies::lemma_pairs_step(ps, 1, false);
        assert(json::pairs_text(ps, 0, false) =~= Seq::<char>::empty());
        let o = json::object_of(ps, false);
        assert(o =~= seq!['{', '"'] + "sip"@ + seq!['"', ':'] + q + seq!['}']);
        let head = info::stations_text(sips, (n - 1) as nat);
        assert(head + json::comma(n) + o =~= head + (if n == 1 {
            seq!['{', '"'] + "sip"@ + seq!['"', ':']
        } else {
            seq![',', '{', '"'] + "sip"@ + seq!['"', ':']
        }) + q + seq!['}']);
    } else {
        assert(sips.take(0) =~= Seq::<Seq<char>>::empty());
        assert(info::stations_text(sips, 0) =~= Seq::<char>::empty());
    }
}

/// What is said of video.
pub open spec fn video_text(forward: bool, format: Seq<char>, cache_path: Seq<char>) -> Seq<char> {
    "{\"forward\":"@ + replies::flag(forward) + ",\"forward_supported\":"@ + replies::flag(forward)
        + ",\"protocol\":"@ + "\"anjubao-h264\""@ + ",\"format\":"@ + json::string_text(
        format,
        false,
    ) + ",\"cache_path\":"@ + json::string_text(cache_path, false) + "}"@
}

/// What the daemon says of itself.
pub open spec fn self_text(
    version: Seq<char>,
    monitor: Seq<char>,
    stations: Seq<Seq<char>>,
    forward: bool,
    format: Seq<char>,
    cache_path: Seq<char>,
) -> Seq<char> {
    "{\"daemon\":"@ + "\"dooraccess-go\""@ + ",\"version\":"@ + json::string_text(
        if version.len() == 0 {
            "dev"@
        } else {
            version
        },
        false,
    ) + ",\"brand\":"@ + "\"anjubao\""@ + ",\"monitor\":"@ + json::string_text(monitor, false)
        + ",\"outdoor_stations\":"@ + ("["@ + station_list(stations) + "]"@) + ",\"video\":"@
        + video_text(forward, format, cache_path) + "}"@
}

proof fn lemma_fixed_chars(t: Seq<char>)
    requires
        forall|i: int|
            0 <= i < t.len() ==> 'a' <= #[trigger] t[i] <= 'z' || '0' <= t[i] <= '9' || t[i] == '-',
    ensures
        json::string_text(t, false) == seq!['"'] + t + seq!['"'],
{
    lemma_fixed_run(t);
}

proof fn lemma_fixed_char(c: char)
    requires
        'a' <= c <= 'z' || '0' <= c <= '9' || c == '-',
    ensures
        json::char_text(c, false) == seq![c],
{
}

proof fn lemma_fixed_run(t: Seq<char>)
    requires
        forall|i: int|
            0 <= i < t.len() ==> 'a' <= #[trigger] t[i] <= 'z' || '0' <= t[i] <= '9' || t[i] == '-',
    ensures
        json::chars_text(t, false) == t,
    decreases t.len(),
{
    if t.len() > 0 {
        let r = t.drop_last();
        assert forall|i: int| 0 <= i < r.len() implies 'a' <= #[trigger] r[i] <= 'z' || '0' <= r[i]
            <= '9' || r[i] == '-' by {
            assert(r[i] == t[i]);
        }
        lemma_fixed_run(r);
        lemma_fixed_char(t[t.len() - 1]);
        assert(r + seq![t.last()] =~= t);
    } else {
        assert(json::chars_text(t, false) =~= t);
    }
}

proof fn lemma_fixed_texts()
    ensures
        json::string_text("anjubao-h264"@, false) == "\"anjubao-h264\""@,
        json::string_text("anjubao"@, false) == "\"anjubao\""@,
        json::string_text("dooraccess-go"@, false) == "\"dooraccess-go\""@,
{
    assert(json::string_text("anjubao-h264"@, false) =~= "\"anjubao-h264\""@) by {
        reveal_strlit("anjubao-h264");
        reveal_strlit("\"anjubao-h264\"");
        lemma_fixed_chars("anjubao-h264"@);
    }
    assert(json::string_text("anjubao"@, false) =~= "\"anjubao\""@) by {
        reveal_strlit("anjubao");
        reveal_strlit("\"anjubao\"");
        lemma_fixed_chars("anjubao"@);
    }
    assert(json::string_text("dooraccess-go"@, false) =~= "\"dooraccess-go\""@) by {
        reveal_strlit("dooraccess-go");
        reveal_strlit("\"dooraccess-go\"");
        lemma_fixed_chars("dooraccess-go"@);
    }
}

/// One more member of an object that is being written.
proof fn lemma_member(ps: Seq<(Seq<char>, Seq<char>)>, n: nat, lit: Seq<char>)
    requires
        0 < n <= ps.len(),
        replies::is_key(ps[n - 1].0),
        lit == (if n == 1 {
            seq!['{', '"']
        } else {
            seq![',', '"']
        }) + ps[n - 1].0 + seq!['"', ':'],
    ensures
        n == 1 ==> seq!['{'] + json::pairs_text(ps, n, false) == lit + ps[n - 1].1,
        n > 1 ==> seq!['{'] + json::pairs_text(ps, n, false) == seq!['{'] + json::pairs_text(
            ps,
            (n - 1) as nat,
            false,
        ) + lit + ps[n - 1].1,
{
    replies::lemma_pairs_step(ps, n, false);
    let (k, v) = ps[n - 1];
    let head = json::pairs_text(ps, (n - 1) as nat, false);
    if n == 1 {
        assert(json::pairs_text(ps, 0, false) =~= Seq::<char>::empty());
        assert(seq!['{'] + (head + seq!['"'] + k + seq!['"', ':'] + v) =~= lit + v);
    } else {
        assert(seq!['{'] + (head + seq![',', '"'] + k + seq!['"', ':'] + v) =~= seq!['{'] + head
            + lit + v);
    }
}

#[verifier::rlimit(40)]
proof fn lemma_video_text(forward: bool, format: Seq<char>, cache_path: Seq<char>)
    ensures
        json::object_of(
            seq![
                ("forward"@, info::flag_text(forward)),
                ("forward_supported"@, info::flag_text(forward)),
                ("protocol"@, json::string_text("anjubao-h264"@, false)),
                ("format"@, json::string_text(format, false)),
                ("cache_path"@, json::string_text(cache_path, false)),
            ],
            false,
        ) == video_text(forward, format, cache_path),
{
    let ps = seq![
        ("forward"@, info::flag_text(forward)),
        ("forward_supported"@, info::flag_text(forward)),
        ("protocol"@, json::string_text("anjubao-h264"@, false)),
        ("format"@, json::string_text(format, false)),
        ("cache_path"@, json::string_text(cache_path, false)),
    ];
    assert(replies::is_key("forward"@) && "{\"forward\":"@ =~= seq!['{', '"'] + "forward"@ + seq![
        '"',
        ':',
    ]) by {
        reveal_strlit("forward");
        reveal_strlit("{\"forward\":");
    }
    assert(replies::is_key("forward_supported"@) && ",\"forward_supported\":"@ =~= seq![',', '"']
        + "forward_supported"@ + seq!['"', ':']) by {
        reveal_strlit("forward_supported");
        reveal_strlit(",\"forward_supported\":");
    }
    assert(replies::is_key("protocol"@) && ",\"protocol\":"@ =~= seq![',', '"'] + "protocol"@
        + seq!['"', ':']) by {
        reveal_strlit("protocol");
        reveal_strlit(",\"protocol\":");
    }
    assert(replies::is_key("format"@) && ",\"format\":"@ =~= seq![',', '"'] + "format"@ + seq![
        '"',
        ':',
    ]) by {
        reveal_strlit("format");
        reveal_strlit(",\"format\":");
    }
    assert(replies::is_key("cache_path"@) && ",\"cache_path\":"@ =~= seq![',', '"']
        + "cache_path"@ + seq!['"', ':']) by {
        reveal_strlit("cache_path");
        reveal_strlit(",\"cache_path\":");
    }
    lemma_fixed_texts();
    assert(seq!['}'] =~= "}"@) by {
        reveal_strlit("}");
    }
    lemma_member(ps, 1, "{\"forward\":"@);
    lemma_member(ps, 2, ",\"forward_supported\":"@);
    lemma_member(ps, 3, ",\"protocol\":"@);
    lemma_member(ps, 4, ",\"format\":"@);
    lemma_member(ps, 5, ",\"cache_path\":"@);
}

#[verifier::rlimit(40)]
proof fn lemma_self_text(
    version: Seq<char>,
    monitor: Seq<char>,
    stations: Seq<Seq<char>>,
    video: Seq<char>,
)
    ensures
        json::object_of(
            seq![
                ("daemon"@, json::string_text("dooraccess-go"@, false)),
                ("version"@, version),
                ("brand"@, json::string_text("anjubao"@, false)),
                ("monitor"@, monitor),
                (
                    "outdoor_stations"@,
                    seq!['['] + info::stations_text(stations, stations.len()) + seq![']'],
                ),
                ("video"@, video),
            ],
            false,
        ) == "{\"daemon\":"@ + "\"dooraccess-go\""@ + ",\"version\":"@ + version
            + ",\"brand\":"@ + "\"anjubao\""@ + ",\"monitor\":"@ + monitor
            + ",\"outdoor_stations\":"@ + ("["@ + station_list(stations) + "]"@)
            + ",\"video\":"@ + video + "}"@,
{
    let ps = seq![
        ("daemon"@, json::string_text("dooraccess-go"@, false)),
        ("version"@, version),
        ("brand"@, json::string_text("anjubao"@, false)),
        ("monitor"@, monitor),
        (
            "outdoor_stations"@,
            seq!['['] + info::stations_text(stations, stations.len()) + seq![']'],
        ),
        ("video"@, video),
    ];
    lemma_fixed_texts();
    lemma_station_list(stations, stations.len());
    assert(stations.take(stations.len() as int) =~= stations);
    assert(seq!['['] =~= "["@ && seq![']'] =~= "]"@ && seq!['}'] =~= "}"@) by {
        reveal_strlit("[");
        reveal_strlit("]");
        reveal_strlit("}");
    }
    assert(replies::is_key("daemon"@) && "{\"daemon\":"@ =~= seq!['{', '"'] + "daemon"@ + seq![
        '"',
        ':',
    ]) by {
        reveal_strlit("daemon");
        reveal_strlit("{\"daemon\":");
    }
    assert(replies::is_key("version"@) && ",\"version\":"@ =~= seq![',', '"'] + "version"@ + seq![
        '"',
        ':',
    ]) by {
        reveal_strlit("version");
        reveal_strlit(",\"version\":");
    }
    assert(replies::is_key("brand"@) && ",\"brand\":"@ =~= seq![',', '"'] + "brand"@ + seq![
        '"',
        ':',
    ]) by {
        reveal_strlit("brand");
        reveal_strlit(",\"brand\":");
    }
    assert(replies::is_key("monitor"@) && ",\"monitor\":"@ =~= seq![',', '"'] + "monitor"@ + seq![
        '"',
        ':',
    ]) by {
        reveal_strlit("monitor");
        reveal_strlit(",\"monitor\":");
    }
    assert(replies::is_key("outdoor_stations"@) && ",\"outdoor_stations\":"@ =~= seq![',', '"']
        + "outdoor_stations"@ + seq!['"', ':']) by {
        reveal_strlit("outdoor_stations");
        reveal_strlit(",\"outdoor_stations\":");
    }
    assert(replies::is_key("video"@) && ",\"video\":"@ =~= seq![',', '"'] + "video"@ + seq![
        '"',
        ':',
    ]) by {
        reveal_strlit("video");
        reveal_strlit(",\"video\":");
    }
    lemma_member(ps, 1, "{\"daemon\":"@);
    lemma_member(ps, 2, ",\"version\":"@);
    lemma_member(ps, 3, ",\"brand\":"@);
    lemma_member(ps, 4, ",\"monitor\":"@);
    lemma_member(ps, 5, ",\"outdoor_stations\":"@);
    lemma_member(ps, 6, ",\"video\":"@);
}

/// The daemon describes itself: its version, the monitor, the stations in their order and the
/// video settings.
#[verifier::rlimit(40)]
pub proof fn law_daemon_is_described<W: ResponseWriter>(
    s: &mut Server,
    w: &mut W,
    r: Request,
    a: Action,
)
    requires
        replies::unsent(old(w).reply()),
        call_ensures(Server::serve_http::<W>, (s, w, &r), a),
        r.url.path@ == "/info"@,
        r.method@ == "GET"@,
    ensures
        a is Done,
        serving::untouched(*final(s), *old(s)),
        ({
            let c = old(s)@.cfg;
            replies::carries(
                final(w).reply(),
                200,
                encode_utf8(
                    self_text(
                        old(s).version@,
                        c.sip,
                        Seq::new(c.stations.len(), |i: int| c.stations[i].sip),
                        c.video.forward,
                        c.video.format,
                        c.video.cache_path,
                    ).push('\n'),
                ),
            )
        }),
        replies::has_field(final(w).reply(), "Content-Type"@, "application/json"@),
{
    serving::lemma_paths_differ();
    let c = old(s)@.cfg;
    let sips = Seq::new(c.stations.len(), |i: int| c.stations[i].sip);
    let v = old(s).version@;
    let shown = if v.len() == 0 {
        "dev"@
    } else {
        v
    };
    lemma_video_text(c.video.forward, c.video.format, c.video.cache_path);
    lemma_self_text(
        json::string_text(shown, false),
        json::string_text(c.sip, false),
        sips,
        video_text(c.video.forward, c.video.format, c.video.cache_path),
    );
    let d = info::described(Some(c), v, old(s).pid, None);
    let t = info::info_text(d);
    assert(t == self_text(
        v,
        c.sip,
        sips,
        c.video.forward,
        c.video.format,
        c.video.cache_path,
    ));
    lemma_info_reply(d, old(w).reply());
    assert(a@ is Done ==> a is Done);
}

proof fn lemma_info_reply(d: info::DescView, before: Reply)
    requires
        replies::unsent(before),
    ensures
        replies::carries(
            endpoints::info_reply(d, before),
            200,
            encode_utf8(info::info_text(d).push('\n')),
        ),
        replies::has_field(
            endpoints::info_reply(d, before),
            "Content-Type"@,
            "application/json"@,
        ),
{
    header::lemma_names();
    let body = info::info_text(d).push('\n');
    text::lemma_encode_char(body[0]);
    assert(encode_utf8(body).len() > 0);
    assert(endpoints::info_reply(d, before).pieces =~= seq![encode_utf8(body)]);
}

} // verus!
