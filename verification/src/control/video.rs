//! The video endpoints.

use vstd::prelude::*;
use vstd::slice::slice_subrange;
use vstd::string::*;

use super::endpoints;
use super::endpoints::parse_uri_bcd;
use super::fields;
use super::fields::field_or_empty;
use super::scan;
use super::scan::json_syntax_check;
use super::{admit_method, error_json, result_json, write_json, STATUS_CONFLICT,
    STATUS_GATEWAY_TIMEOUT, STATUS_SERVICE_UNAVAILABLE};
use crate::config::{Station, StationView};
use crate::httpx::json;
use crate::httpx::json::JsonValue;
use crate::httpx::{Reply, Request, RequestView, ResponseWriter, METHOD_GET, STATUS_BAD_REQUEST,
    STATUS_NOT_FOUND, STATUS_OK};
use crate::text;
use crate::text::{chars_of, chars_start_with, find_char, str_eq, string_of};

verus! {

/// The answer of all video endpoints where video is not forwarded.
pub const VIDEO_NOT_ENABLED: &'static str = "video forward not enabled";

/// Times of a stream, in milliseconds.
#[derive(Debug, Clone, Copy, PartialEq, Eq, Structural)]
pub struct StreamTimes {
    /// How long to wait for the first key frame.
    pub startup_timeout_ms: u32,
    /// How often a session is kept alive while it is watched.
    pub ttl_refresh_period_ms: u32,
}

impl Default for StreamTimes {
    fn default() -> (t: Self)
        ensures
            t.startup_timeout_ms == 5000,
            t.ttl_refresh_period_ms == 30000,
    {
        StreamTimes { startup_timeout_ms: 5000, ttl_refresh_period_ms: 30000 }
    }
}

impl StreamTimes {
    /// Sets the wait for the first key frame and gives back what it was.
    pub fn set_stream_startup_timeout_ms(&mut self, ms: u32) -> (before: u32)
        ensures
            *final(self) == (StreamTimes { startup_timeout_ms: ms, ..*old(self) }),
            before == old(self).startup_timeout_ms,
    {
        let before: u32 = self.startup_timeout_ms;
        self.startup_timeout_ms = ms;
        before
    }

    /// Sets how often a session is kept alive and gives back what it was.
    pub fn set_ttl_refresh_period_ms(&mut self, ms: u32) -> (before: u32)
        ensures
            *final(self) == (StreamTimes { ttl_refresh_period_ms: ms, ..*old(self) }),
            before == old(self).ttl_refresh_period_ms,
    {
        let before: u32 = self.ttl_refresh_period_ms;
        self.ttl_refresh_period_ms = ms;
        before
    }
}

// ---------------------------------------------------------------------------
// Starting and stopping
// ---------------------------------------------------------------------------

/// A station to watch.
#[derive(Debug, Clone, PartialEq, Eq)]
pub struct Outdoor {
    pub uri: String,
    pub bcd: [u8; 4],
    pub ip: String,
    pub port: u16,
}

/// `Outdoor` with its texts as sequences.
pub struct OutdoorView {
    pub uri: Seq<char>,
    pub bcd: Seq<u8>,
    pub ip: Seq<char>,
    pub port: u16,
}

impl View for Outdoor {
    type V = OutdoorView;

    open spec fn view(&self) -> OutdoorView {
        OutdoorView { uri: self.uri@, bcd: self.bcd@, ip: self.ip@, port: self.port }
    }
}

/// The field `outdoor` of a body.
pub open spec fn video_body(raw: Seq<u8>) -> Result<Seq<char>, Seq<char>> {
    if raw.len() > 0 && scan::text_fault(raw) is Some {
        Err("parse JSON body: "@ + scan::text_fault(raw)->0)
    } else {
        Ok(fields::text_or_empty(raw, "outdoor"@))
    }
}

/// Whether the address is that of a station, letter for letter.
pub open spec fn is_allowed(stations: Seq<StationView>, uri: Seq<char>) -> bool {
    exists|i: int| 0 <= i < stations.len() && (#[trigger] stations[i]).sip == uri
}

/// The station that a request asks for: it must be one of those configured.
pub open spec fn requested_outdoor(stations: Seq<StationView>, body: Seq<u8>) -> Result<
    OutdoorView,
    Seq<char>,
> {
    match video_body(body) {
        Err(m) => Err(m),
        Ok(uri) => if uri.len() == 0 {
            Err("missing 'outdoor' field"@)
        } else {
            match endpoints::uri_bcd(uri) {
                Err(m) => Err("invalid 'outdoor' URI: "@ + m),
                Ok((bcd, ip, port)) => if is_allowed(stations, uri) {
                    Ok(OutdoorView { uri, bcd, ip, port })
                } else {
                    Err("outdoor not in cfg.stations allowlist"@)
                },
            }
        },
    }
}

/// Only stations of the configuration are ever dialed for video.
pub proof fn law_outdoor_is_configured(stations: Seq<StationView>, body: Seq<u8>)
    requires
        requested_outdoor(stations, body) is Ok,
    ensures
        is_allowed(stations, requested_outdoor(stations, body)->Ok_0.uri),
{
}

/// Reads the field `outdoor` of a body.
pub fn parse_video_body(raw: &[u8]) -> (r: Result<String, String>)
    ensures
        match r {
            Ok(t) => video_body(raw@) == Ok::<_, Seq<char>>(t@),
            Err(m) => video_body(raw@) == Err::<Seq<char>, _>(m@),
        },
{
    if raw.len() > 0 {
        match json_syntax_check(raw) {
            Ok(_) => {},
            Err(e) => {
                let mut m = "parse JSON body: ".to_owned();
                m.append(e.as_str());
                return Err(m);
            },
        }
    }
    Ok(field_or_empty(raw, "outdoor"))
}

/// Whether the address is that of a station.
pub fn is_outdoor_allowed(stations: &Vec<Station>, uri: &str) -> (r: bool)
    ensures
        r == is_allowed(crate::config::station_views(stations@), uri@),
{
    let ghost all = crate::config::station_views(stations@);
    let mut i: usize = 0;
    while i < stations.len()
        invariant
            i <= stations.len(),
            all == crate::config::station_views(stations@),
            forall|j: int| 0 <= j < i ==> (#[trigger] all[j]).sip != uri@,
        decreases stations.len() - i,
    {
        assert(all[i as int] == stations@[i as int]@);
        if str_eq(stations[i].sip.as_str(), uri) {
            return true;
        }
        i += 1;
    }
    false
}

/// Reads the station that a request asks for.
pub fn plan_video(stations: &Vec<Station>, body: &[u8]) -> (r: Result<Outdoor, String>)
    ensures
        match r {
            Ok(o) => requested_outdoor(crate::config::station_views(stations@), body@) == Ok::<
                _,
                Seq<char>,
            >(o@),
            Err(m) => requested_outdoor(crate::config::station_views(stations@), body@) == Err::<
                OutdoorView,
                _,
            >(m@),
        },
{
    let uri = match parse_video_body(body) {
        Ok(u) => u,
        Err(m) => return Err(m),
    };
    if uri.as_str().is_empty() {
        return Err("missing 'outdoor' field".to_owned());
    }
    let (bcd, ip, port) = match parse_uri_bcd(uri.as_str()) {
        Ok(p) => p,
        Err(e) => {
            let mut m = "invalid 'outdoor' URI: ".to_owned();
            m.append(e.as_str());
            return Err(m);
        },
    };
    if !is_outdoor_allowed(stations, uri.as_str()) {
        return Err("outdoor not in cfg.stations allowlist".to_owned());
    }
    Ok(Outdoor { uri, bcd, ip, port })
}

/// The answer to a request to start or stop, where it is refused. That video is not
/// forwarded is said before anything of the body is looked at.
pub open spec fn video_refused(
    enabled: bool,
    stations: Seq<StationView>,
    body: Seq<u8>,
    before: Reply,
) -> Option<Reply> {
    if !enabled {
        Some(super::error_reply(before, STATUS_SERVICE_UNAVAILABLE, VIDEO_NOT_ENABLED@))
    } else {
        match requested_outdoor(stations, body) {
            Err(m) => Some(super::error_reply(before, STATUS_BAD_REQUEST, m)),
            Ok(_) => None,
        }
    }
}

/// Checks a request to start or stop. The station to start or stop is given back, or the
/// request was answered.
pub fn admit_video<W: ResponseWriter>(
    enabled: bool,
    stations: &Vec<Station>,
    w: &mut W,
    r: &Request,
) -> (o: Option<Outdoor>)
    ensures
        match video_refused(
            enabled,
            crate::config::station_views(stations@),
            r@.body,
            old(w).reply(),
        ) {
            Some(reply) => o is None && final(w).reply() == reply,
            None => {
                &&& final(w).reply() == old(w).reply()
                &&& o matches Some(out) && requested_outdoor(
                    crate::config::station_views(stations@),
                    r@.body,
                ) == Ok::<_, Seq<char>>(out@)
            },
        },
{
    if !enabled {
        error_json(w, STATUS_SERVICE_UNAVAILABLE, VIDEO_NOT_ENABLED);
        return None;
    }
    match plan_video(stations, r.body.as_slice()) {
        Ok(o) => Some(o),
        Err(m) => {
            error_json(w, STATUS_BAD_REQUEST, m.as_str());
            None
        },
    }
}

/// What starting a session came to.
#[derive(Debug, Clone, PartialEq, Eq)]
pub enum VideoStart {
    Started { session_id: String, stream_url: String, ttl_secs: i64 },
    /// Another session is active.
    Conflict(String),
    Failed(String),
}

/// The answer for what starting a session came to.
pub open spec fn start_reply(s: VideoStart, before: Reply) -> Reply {
    match s {
        VideoStart::Started { session_id, stream_url, ttl_secs } => super::json_reply(
            before,
            STATUS_OK,
            Some(
                json::object_of(
                    seq![
                        ("session_id"@, json::string_text(session_id@, true)),
                        ("stream_url"@, json::string_text(stream_url@, true)),
                        ("ttl"@, text::dec_int(ttl_secs as int)),
                    ],
                    true,
                ),
            ),
        ),
        VideoStart::Conflict(m) => super::error_reply(before, STATUS_CONFLICT, m@),
        VideoStart::Failed(m) => super::error_reply(before, STATUS_SERVICE_UNAVAILABLE, m@),
    }
}

/// Answers with what starting a session came to.
pub fn respond_video_start<W: ResponseWriter>(w: &mut W, s: &VideoStart)
    ensures
        final(w).reply() == start_reply(*s, old(w).reply()),
{
    match s {
        VideoStart::Started { session_id, stream_url, ttl_secs } => {
            let out = [
                ("session_id", JsonValue::String(session_id.clone())),
                ("stream_url", JsonValue::String(stream_url.clone())),
                ("ttl", JsonValue::Number(*ttl_secs)),
            ];
            assert(json::record_pairs(out@, true) =~= seq![
                ("session_id"@, json::string_text(session_id@, true)),
                ("stream_url"@, json::string_text(stream_url@, true)),
                ("ttl"@, text::dec_int(*ttl_secs as int)),
            ]);
            write_json(w, STATUS_OK, Some(out.as_slice()));
        },
        VideoStart::Conflict(m) => {
            error_json(w, STATUS_CONFLICT, m.as_str());
        },
        VideoStart::Failed(m) => {
            error_json(w, STATUS_SERVICE_UNAVAILABLE, m.as_str());
        },
    }
}

/// Answers that a session was stopped, whether or not there was one.
pub fn respond_video_stop<W: ResponseWriter>(w: &mut W)
    ensures
        final(w).reply() == super::result_reply(old(w).reply(), STATUS_OK, 0),
{
    result_json(w, STATUS_OK, 0);
}

// ---------------------------------------------------------------------------
// Watching
// ---------------------------------------------------------------------------

/// Session and resource in a path `/video/<session>/<resource>`.
pub open spec fn video_path(path: Seq<char>) -> Option<(Seq<char>, Seq<char>)> {
    if !text::has_prefix(path, "/video/"@) {
        None
    } else {
        let rest = path.skip("/video/"@.len() as int);
        match text::find(rest, '/') {
            Some(i) => Some((rest.take(i), rest.skip(i + 1))),
            None => None,
        }
    }
}

/// Splits a path `/video/<session>/<resource>`.
pub fn split_video_path(path: &str) -> (r: Option<(String, String)>)
    ensures
        match r {
            Some((id, res)) => video_path(path@) == Some((id@, res@)),
            None => video_path(path@) is None,
        },
{
    let cs = chars_of(path);
    if !chars_start_with(cs.as_slice(), "/video/") {
        return None;
    }
    let n: usize = "/video/".unicode_len();
    let rest = slice_subrange(cs.as_slice(), n, cs.len());
    assert(rest@ =~= path@.skip(n as int));
    match find_char(rest, '/') {
        Some(i) => {
            assert(rest@.subrange(0, i as int) =~= rest@.take(i as int));
            assert(rest@.subrange(i + 1, rest@.len() as int) =~= rest@.skip(i + 1));
            Some(
                (
                    string_of(slice_subrange(rest, 0, i)),
                    string_of(slice_subrange(rest, i + 1, rest.len())),
                ),
            )
        },
        None => None,
    }
}

/// The answer to a request for a resource of a session, where it is no stream. The name of
/// the session is looked at first, then the method, the session and the resource.
pub open spec fn resource_refused(
    valid_id: bool,
    found: bool,
    resource: Seq<char>,
    r: RequestView,
    before: Reply,
) -> Option<Reply> {
    if !valid_id {
        Some(super::error_reply(before, STATUS_BAD_REQUEST, "invalid session_id"@))
    } else if r.method != METHOD_GET@ {
        Some(super::method_refused(before, r.method, METHOD_GET@))
    } else if !found {
        Some(super::error_reply(before, STATUS_NOT_FOUND, "video: session not found"@))
    } else if resource == "stream.flv"@ {
        None
    } else if resource == "snapshot.jpg"@ {
        Some(snapshot_reply(before))
    } else {
        Some(super::error_reply(before, STATUS_NOT_FOUND, "video: unknown resource"@))
    }
}

/// The answer to a request for a still picture.
pub open spec fn snapshot_reply(before: Reply) -> Reply {
    super::error_reply(
        before,
        STATUS_SERVICE_UNAVAILABLE,
        "snapshot transcoding not supported on this hardware; HACS should fall back to stream-source ffmpeg"@,
    )
}

/// Answers a request for a still picture.
pub fn serve_video_snapshot<W: ResponseWriter>(w: &mut W)
    ensures
        final(w).reply() == snapshot_reply(old(w).reply()),
{
    error_json(
        w,
        STATUS_SERVICE_UNAVAILABLE,
        "snapshot transcoding not supported on this hardware; HACS should fall back to stream-source ffmpeg",
    );
}

/// Checks a request for a resource of a session. The result says whether to stream; else the
/// request was answered. `valid_id` says whether the name is that of a session at all, and
/// `found` whether there is that session.
pub fn handle_video_dynamic<W: ResponseWriter>(
    valid_id: bool,
    found: bool,
    resource: &str,
    w: &mut W,
    r: &Request,
) -> (stream: bool)
    ensures
        super::gated(
            resource_refused(valid_id, found, resource@, r@, old(w).reply()),
            stream,
            old(w).reply(),
            final(w).reply(),
        ),
{
    if !valid_id {
        error_json(w, STATUS_BAD_REQUEST, "invalid session_id");
        return false;
    }
    if !admit_method(METHOD_GET, w, r) {
        return false;
    }
    if !found {
        error_json(w, STATUS_NOT_FOUND, "video: session not found");
        return false;
    }
    if str_eq(resource, "stream.flv") {
        return true;
    }
    if str_eq(resource, "snapshot.jpg") {
        serve_video_snapshot(w);
    } else {
        error_json(w, STATUS_NOT_FOUND, "video: unknown resource");
    }
    false
}

/// What came of waiting for the first key frame.
#[derive(Debug, Clone, Copy, PartialEq, Eq, Structural)]
pub enum IdrWait {
    Ready,
    Timeout,
    Closed,
}

/// The answer to a request for a stream that cannot begin. `closed` says whether the session
/// was closed by now, `complete` whether all that a decoder needs has arrived.
pub open spec fn stream_refused(wait: IdrWait, closed: bool, complete: bool, before: Reply) -> Option<
    Reply,
> {
    if wait == IdrWait::Timeout {
        Some(
            super::error_reply(
                before,
                STATUS_GATEWAY_TIMEOUT,
                "video: no keyframe within startup timeout; outdoor not pushing RTP"@,
            ),
        )
    } else if wait == IdrWait::Closed || closed {
        Some(super::error_reply(before, STATUS_SERVICE_UNAVAILABLE, "video: session closed"@))
    } else if !complete {
        Some(
            super::error_reply(
                before,
                STATUS_GATEWAY_TIMEOUT,
                "video: stream not ready (missing SPS/PPS)"@,
            ),
        )
    } else {
        None
    }
}

/// The head of a stream.
pub open spec fn stream_head(before: Reply) -> Reply {
    before.with_field("Content-Type"@, "video/x-flv"@).with_field(
        "Cache-Control"@,
        "no-store"@,
    ).begun(STATUS_OK)
}

/// Begins a stream, or answers why not. Only where the result is true is the session to be
/// kept alive and the stream to be written.
pub fn serve_video_stream<W: ResponseWriter>(
    wait: IdrWait,
    closed: bool,
    complete: bool,
    w: &mut W,
) -> (streams: bool)
    ensures
        match stream_refused(wait, closed, complete, old(w).reply()) {
            Some(reply) => !streams && final(w).reply() == reply,
            None => streams && final(w).reply() == stream_head(old(w).reply()),
        },
{
    match wait {
        IdrWait::Timeout => {
            error_json(
                w,
                STATUS_GATEWAY_TIMEOUT,
                "video: no keyframe within startup timeout; outdoor not pushing RTP",
            );
            return false;
        },
        IdrWait::Closed => {
            error_json(w, STATUS_SERVICE_UNAVAILABLE, "video: session closed");
            return false;
        },
        IdrWait::Ready => {},
    }
    if closed {
        error_json(w, STATUS_SERVICE_UNAVAILABLE, "video: session closed");
        return false;
    }
    if !complete {
        error_json(w, STATUS_GATEWAY_TIMEOUT, "video: stream not ready (missing SPS/PPS)");
        return false;
    }
    w.set_header("Content-Type", "video/x-flv");
    w.set_header("Cache-Control", "no-store");
    w.write_header(STATUS_OK);
    true
}

/// Longest wait between two looks at whether a stream has ended, in nanoseconds.
pub const POLL_SLICE: u64 = 20000000;

/// What to do in the loop that keeps a session alive while it is watched.
#[derive(Debug, Clone, Copy, PartialEq, Eq, Structural)]
pub struct TtlTick {
    /// Keep the session alive now.
    pub refresh: bool,
    /// When to do so next.
    pub next: u64,
}

/// A session is kept alive whenever the time for it has come, and then a period later again.
pub fn ttl_tick(now: u64, next: u64, period: u64) -> (t: TtlTick)
    requires
        now + period <= u64::MAX,
    ensures
        t == if now >= next {
            (TtlTick { refresh: true, next: (now + period) as u64 })
        } else {
            (TtlTick { refresh: false, next })
        },
{
    if now >= next {
        TtlTick { refresh: true, next: now + period }
    } else {
        TtlTick { refresh: false, next }
    }
}

/// How long to wait before the next look.
pub fn ttl_wait(now: u64, next: u64) -> (t: u64)
    ensures
        t == if next <= now {
            0
        } else if next - now < POLL_SLICE {
            next - now
        } else {
            POLL_SLICE as int
        },
{
    let left: u64 = if next > now {
        next - now
    } else {
        0
    };
    if left < POLL_SLICE {
        left
    } else {
        POLL_SLICE
    }
}

/// What a look at the connection of a watcher showed.
#[derive(Debug, Clone, Copy, PartialEq, Eq, Structural)]
pub enum Peek {
    /// The watcher is gone.
    Ended,
    /// The watcher sent something.
    Data,
    /// Nothing came.
    Nothing,
    /// The connection is broken.
    Broken,
}

/// What to do after a look at the connection of a watcher.
#[derive(Debug, Clone, Copy, PartialEq, Eq, Structural)]
pub enum PeekNext {
    /// End the stream.
    Close,
    /// Look no more.
    End,
    /// Wait before the next look.
    Park,
    /// Look again.
    Again,
}

/// A watcher that is gone ends the stream; what a watcher sends is ignored.
pub fn after_peek(p: Peek) -> (n: PeekNext)
    ensures
        n == match p {
            Peek::Ended | Peek::Broken => PeekNext::Close,
            Peek::Data => PeekNext::Park,
            Peek::Nothing => PeekNext::Again,
        },
{
    match p {
        Peek::Ended => PeekNext::Close,
        Peek::Broken => PeekNext::Close,
        Peek::Data => PeekNext::Park,
        Peek::Nothing => PeekNext::Again,
    }
}

/// Before a look at the connection of a watcher: once the stream is done there is none, and the
/// stream is not closed for it.
pub fn before_peek(done: bool) -> (n: PeekNext)
    ensures
        n == if done {
            PeekNext::End
        } else {
            PeekNext::Again
        },
{
    if done {
        PeekNext::End
    } else {
        PeekNext::Again
    }
}

/// Whether a loop beside a stream goes on.
#[derive(Debug, Clone, Copy, PartialEq, Eq, Structural)]
pub enum BesideNext {
    GoOn,
    End,
}

/// Whether a session is still to be kept alive: not once the stream is done, nor once an attempt
/// to do so, if one was due, found no session.
pub fn ttl_next(done: bool, refreshed: Option<bool>) -> (n: BesideNext)
    ensures
        n == if done || refreshed == Some(false) {
            BesideNext::End
        } else {
            BesideNext::GoOn
        },
{
    if done {
        return BesideNext::End;
    }
    match refreshed {
        Some(false) => BesideNext::End,
        _ => BesideNext::GoOn,
    }
}

/// What is left to do once a stream has ended.
#[derive(Debug)]
pub struct StreamOver {
    /// The line for the log, where the stream failed.
    pub line: Option<String>,
    /// The session to stop.
    pub stop: String,
}

/// Once a stream has ended, its session is stopped, by its number so that no later one of the same
/// station is; a failure is logged.
pub fn after_stream(failure: Option<&str>, session_id: &str) -> (o: StreamOver)
    ensures
        match (failure, o.line) {
            (Some(e), Some(l)) => l@ == "video: stream writer exited: "@ + e@,
            (None, None) => true,
            _ => false,
        },
        o.stop@ == session_id@,
{
    let line = match failure {
        Some(e) => {
            let mut l = "video: stream writer exited: ".to_owned();
            l.append(e);
            Some(l)
        },
        None => None,
    };
    StreamOver { line, stop: session_id.to_owned() }
}

} // verus!
