//! The table of endpoints, and the server that answers at them.

use vstd::prelude::*;
use vstd::string::*;

use super::endpoints;
use super::endpoints::{handle_auto_hangup, handle_auto_unlock, handle_automation_get, handle_info,
    handle_playback, plan_unlock, PlanView, UnlockPlan};
use super::video;
use super::video::{admit_video, split_video_path, Outdoor, OutdoorView, VIDEO_NOT_ENABLED};
use super::{admit_business, admit_control, admit_method, error_json, AutomationState,
    STATUS_SERVICE_UNAVAILABLE};
use crate::config::{Config, ConfigView};
use crate::httpx::mux;
use crate::httpx::mux::{http404, ServeMux};
use crate::httpx::{Reply, Request, RequestView, ResponseWriter, METHOD_GET, STATUS_BAD_REQUEST,
    STATUS_NOT_FOUND};
use crate::text;

verus! {

/// The endpoints.
#[derive(Debug, Clone, Copy, PartialEq, Eq, Structural)]
pub enum Route {
    AutoUnlock,
    AutoHangup,
    Automation,
    Info,
    Playback,
    Unlock,
    VideoStart,
    VideoStop,
    /// Everything else below `/video/`.
    VideoResource,
}

/// The endpoint for a path.
pub open spec fn route_of(path: Seq<char>) -> Option<Route> {
    if path == "/auto_unlock"@ {
        Some(Route::AutoUnlock)
    } else if path == "/auto_hangup"@ {
        Some(Route::AutoHangup)
    } else if path == "/automation"@ {
        Some(Route::Automation)
    } else if path == "/info"@ {
        Some(Route::Info)
    } else if path == "/playback"@ {
        Some(Route::Playback)
    } else if path == "/unlock"@ {
        Some(Route::Unlock)
    } else if path == "/video/start"@ {
        Some(Route::VideoStart)
    } else if path == "/video/stop"@ {
        Some(Route::VideoStop)
    } else if text::has_prefix(path, "/video/"@) {
        Some(Route::VideoResource)
    } else {
        None
    }
}

/// The pairs of the table.
pub open spec fn is_entry(p: Seq<char>, h: Route) -> bool {
    ||| p == "/auto_unlock"@ && h == Route::AutoUnlock
    ||| p == "/auto_hangup"@ && h == Route::AutoHangup
    ||| p == "/automation"@ && h == Route::Automation
    ||| p == "/info"@ && h == Route::Info
    ||| p == "/playback"@ && h == Route::Playback
    ||| p == "/unlock"@ && h == Route::Unlock
    ||| p == "/video/start"@ && h == Route::VideoStart
    ||| p == "/video/stop"@ && h == Route::VideoStop
    ||| p == "/video/"@ && h == Route::VideoResource
}

/// The patterns of the table.
pub open spec fn is_listed(p: Seq<char>) -> bool {
    p == "/auto_unlock"@ || p == "/auto_hangup"@ || p == "/automation"@ || p == "/info"@ || p
        == "/playback"@ || p == "/unlock"@ || p == "/video/start"@ || p == "/video/stop"@ || p
        == "/video/"@
}

proof fn lemma_paths()
    ensures
        !mux::is_prefix_pattern("/auto_unlock"@) && "/auto_unlock"@.len() == 12,
        !mux::is_prefix_pattern("/auto_hangup"@) && "/auto_hangup"@.len() == 12,
        !mux::is_prefix_pattern("/automation"@) && "/automation"@.len() == 11,
        !mux::is_prefix_pattern("/info"@) && "/info"@.len() == 5,
        !mux::is_prefix_pattern("/playback"@) && "/playback"@.len() == 9,
        !mux::is_prefix_pattern("/unlock"@) && "/unlock"@.len() == 7,
        !mux::is_prefix_pattern("/video/start"@) && "/video/start"@.len() == 12,
        !mux::is_prefix_pattern("/video/stop"@) && "/video/stop"@.len() == 11,
        mux::is_prefix_pattern("/video/"@) && "/video/"@.len() == 7,
        "/auto_unlock"@ != "/auto_hangup"@,
        "/auto_unlock"@ != "/video/start"@,
        "/auto_hangup"@ != "/video/start"@,
        "/automation"@ != "/video/stop"@,
        "/unlock"@ != "/video/"@,
{
    reveal_strlit("/auto_unlock");
    reveal_strlit("/auto_hangup");
    reveal_strlit("/automation");
    reveal_strlit("/info");
    reveal_strlit("/playback");
    reveal_strlit("/unlock");
    reveal_strlit("/video/start");
    reveal_strlit("/video/stop");
    reveal_strlit("/video/");
    assert("/auto_unlock"@[6] != "/auto_hangup"@[6]);
    assert("/auto_unlock"@[1] != "/video/start"@[1]);
    assert("/auto_hangup"@[1] != "/video/start"@[1]);
    assert("/automation"@[1] != "/video/stop"@[1]);
    assert("/unlock"@[1] != "/video/"@[1]);
}

/// The table of endpoints.
pub fn handler() -> (m: ServeMux<Route>)
    ensures
        m.wf(),
        forall|p: Seq<char>, h: Route| #[trigger] m.leads_to(p, h) <==> is_entry(p, h),
        forall|p: Seq<char>| #[trigger] m.registered(p) <==> is_listed(p),
{
    proof {
        lemma_paths();
    }
    let mut m: ServeMux<Route> = ServeMux::new();
    m.handle("/auto_unlock", Route::AutoUnlock);
    m.handle("/auto_hangup", Route::AutoHangup);
    m.handle("/automation", Route::Automation);
    m.handle("/info", Route::Info);
    m.handle("/playback", Route::Playback);
    m.handle("/unlock", Route::Unlock);
    m.handle("/video/start", Route::VideoStart);
    m.handle("/video/stop", Route::VideoStop);
    m.handle("/video/", Route::VideoResource);
    m
}

/// The endpoint for a path, by the table.
pub fn route(m: &ServeMux<Route>, path: &str) -> (r: Option<Route>)
    requires
        forall|p: Seq<char>, h: Route| #[trigger] m.leads_to(p, h) <==> is_entry(p, h),
        forall|p: Seq<char>| #[trigger] m.registered(p) <==> is_listed(p),
    ensures
        r == route_of(path@),
{
    proof {
        use_type_invariant(m);
        lemma_paths();
        assert(mux::has_pattern(m.exact_routes(), path@) ==> m.registered(path@));
        assert(m.registered("/video/"@));
        assert(mux::has_pattern(m.prefix_routes(), "/video/"@));
        assert(m.registered(path@) <==> is_listed(path@));
        assert forall|q: Seq<char>| mux::has_pattern(m.prefix_routes(), q) implies q
            == "/video/"@ by {
            assert(m.registered(q));
        }
    }
    match m.match_handler(path) {
        Some(h) => {
            proof {
                if mux::has_pattern(m.exact_routes(), path@) {
                    assert(m.leads_to(path@, *h));
                } else {
                    let p = choose|p: Seq<char>| #[trigger]
                        mux::has_route(m.prefix_routes(), p, *h) && text::has_prefix(path@, p);
                    lemma_route_has_pattern(m.prefix_routes(), p, *h);
                    assert(p == "/video/"@);
                    assert(m.leads_to(p, *h));
                }
            }
            Some(*h)
        },
        None => {
            assert(!text::has_prefix(path@, "/video/"@));
            None
        },
    }
}

proof fn lemma_route_has_pattern(v: Seq<(Seq<char>, Route)>, p: Seq<char>, h: Route)
    requires
        mux::has_route(v, p, h),
    ensures
        mux::has_pattern(v, p),
{
    let i = choose|i: int| 0 <= i < v.len() && #[trigger] v[i] == (p, h);
    assert(v[i].0 == p);
}

// ---------------------------------------------------------------------------
// The server
// ---------------------------------------------------------------------------

/// What is left to do for a request.
#[derive(Debug, Clone, PartialEq, Eq)]
pub enum Action {
    /// Nothing, it was answered.
    Done,
    /// Save the flags; it was answered.
    Save,
    /// Unlock, and answer with the outcome.
    Dispatch(UnlockPlan),
    /// Start a session, and answer with what came of it.
    StartVideo(Outdoor),
    /// Stop the session of a station, and answer.
    StopVideo(Outdoor),
    /// Look up a session, and answer with the resource.
    Watch { session_id: String, resource: String },
}

/// `Action` with its texts as sequences.
pub enum ActionView {
    Done,
    Save,
    Dispatch(PlanView),
    StartVideo(OutdoorView),
    StopVideo(OutdoorView),
    Watch { session_id: Seq<char>, resource: Seq<char> },
}

impl View for Action {
    type V = ActionView;

    open spec fn view(&self) -> ActionView {
        match self {
            Action::Done => ActionView::Done,
            Action::Save => ActionView::Save,
            Action::Dispatch(p) => ActionView::Dispatch(p@),
            Action::StartVideo(o) => ActionView::StartVideo(o@),
            Action::StopVideo(o) => ActionView::StopVideo(o@),
            Action::Watch { session_id, resource } => ActionView::Watch {
                session_id: session_id@,
                resource: resource@,
            },
        }
    }
}

/// The control server.
pub struct Server {
    pub cfg: Config,
    pub version: String,
    pub pid: u32,
    pub automation: Option<AutomationState>,
    /// Video is forwarded.
    pub video: bool,
}

/// `Server` with its texts as sequences.
pub struct ServerView {
    pub cfg: ConfigView,
    pub version: Seq<char>,
    pub pid: u32,
    pub automation: Option<AutomationState>,
    pub video: bool,
}

impl View for Server {
    type V = ServerView;

    open spec fn view(&self) -> ServerView {
        ServerView {
            cfg: self.cfg@,
            version: self.version@,
            pid: self.pid,
            automation: self.automation,
            video: self.video,
        }
    }
}

/// What a request came to: the flags afterwards, the answer so far, and what is left to do.
pub struct Served {
    pub automation: Option<AutomationState>,
    pub reply: Reply,
    pub action: ActionView,
}

/// The request was answered and nothing changed.
pub open spec fn answered(s: ServerView, reply: Reply) -> Served {
    Served { automation: s.automation, reply, action: ActionView::Done }
}

/// The answer of the guards of an endpoint, where they do not let the request pass.
pub open spec fn route_gate(route: Route, s: ServerView, r: RequestView, before: Reply) -> Option<
    Reply,
> {
    match route {
        Route::AutoUnlock | Route::AutoHangup | Route::VideoStart | Route::VideoStop =>
            super::control_gate(r, before),
        Route::Automation | Route::Info | Route::Playback => super::method_gate(
            METHOD_GET@,
            r,
            before,
        ),
        Route::Unlock => super::business_gate(s.cfg.stations.len(), r, before),
        Route::VideoResource => None,
    }
}

/// A flag was switched, or the request to do so refused.
pub open spec fn flag_served(s: ServerView, hangup: bool, r: RequestView, before: Reply) -> Served {
    let (save, automation, reply) = endpoints::switched(s.automation, hangup, r.body, before);
    Served {
        automation,
        reply,
        action: if save {
            ActionView::Save
        } else {
            ActionView::Done
        },
    }
}

/// What a request that passed the guards came to.
pub open spec fn endpoint_served(route: Route, s: ServerView, r: RequestView, before: Reply) -> Served {
    match route {
        Route::AutoUnlock => flag_served(s, false, r, before),
        Route::AutoHangup => flag_served(s, true, r, before),
        Route::Automation => answered(s, endpoints::flags_reply(s.automation, before)),
        Route::Info => answered(
            s,
            endpoints::info_reply(
                crate::info::described(Some(s.cfg), s.version, s.pid, None),
                before,
            ),
        ),
        Route::Playback => answered(s, endpoints::playback_reply(before)),
        Route::Unlock => match endpoints::unlock_plan(r.body) {
            Err(m) => answered(s, super::error_reply(before, STATUS_BAD_REQUEST, m)),
            Ok(p) => Served {
                automation: s.automation,
                reply: before,
                action: ActionView::Dispatch(p),
            },
        },
        Route::VideoStart | Route::VideoStop => match video::video_refused(
            s.video,
            s.cfg.stations,
            r.body,
            before,
        ) {
            Some(reply) => answered(s, reply),
            None => {
                let o = video::requested_outdoor(s.cfg.stations, r.body)->Ok_0;
                Served {
                    automation: s.automation,
                    reply: before,
                    action: if route == Route::VideoStart {
                        ActionView::StartVideo(o)
                    } else {
                        ActionView::StopVideo(o)
                    },
                }
            },
        },
        Route::VideoResource => if !s.video {
            answered(
                s,
                super::error_reply(before, STATUS_SERVICE_UNAVAILABLE, VIDEO_NOT_ENABLED@),
            )
        } else {
            match video::video_path(r.path) {
                None => answered(
                    s,
                    super::error_reply(before, STATUS_NOT_FOUND, "video: malformed path"@),
                ),
                Some((session_id, resource)) => Served {
                    automation: s.automation,
                    reply: before,
                    action: ActionView::Watch { session_id, resource },
                },
            }
        },
    }
}

/// What a request came to.
pub open spec fn served(s: ServerView, r: RequestView, before: Reply) -> Served {
    match route_of(r.path) {
        None => answered(s, mux::not_found(before)),
        Some(route) => match route_gate(route, s, r, before) {
            Some(reply) => answered(s, reply),
            None => endpoint_served(route, s, r, before),
        },
    }
}

impl Server {
    /// A server that does not forward video.
    pub fn new(cfg: Config, version: &str, pid: u32, automation: Option<AutomationState>) -> (s:
        Self)
        ensures
            s@ == (ServerView { cfg: cfg@, version: version@, pid, automation, video: false }),
    {
        Server { cfg, version: version.to_owned(), pid, automation, video: false }
    }

    /// Sets whether video is forwarded.
    pub fn set_video(&mut self, video: bool)
        ensures
            final(self)@ == (ServerView { video, ..old(self)@ }),
    {
        self.video = video;
    }

    fn passes<W: ResponseWriter>(&self, route: Route, w: &mut W, r: &Request) -> (passed: bool)
        ensures
            super::gated(
                route_gate(route, self@, r@, old(w).reply()),
                passed,
                old(w).reply(),
                final(w).reply(),
            ),
    {
        match route {
            Route::AutoUnlock => admit_control(w, r),
            Route::AutoHangup => admit_control(w, r),
            Route::VideoStart => admit_control(w, r),
            Route::VideoStop => admit_control(w, r),
            Route::Automation => admit_method(METHOD_GET, w, r),
            Route::Info => admit_method(METHOD_GET, w, r),
            Route::Playback => admit_method(METHOD_GET, w, r),
            Route::Unlock => admit_business(self.cfg.stations.len(), w, r),
            Route::VideoResource => true,
        }
    }

    /// Answers a request as far as can be without outside help, and says what is left to do.
    pub fn serve_http<W: ResponseWriter>(&mut self, w: &mut W, r: &Request) -> (a: Action)
        ensures
            ({
                let s = served(old(self)@, r@, old(w).reply());
                &&& final(w).reply() == s.reply
                &&& a@ == s.action
                &&& final(self)@ == (ServerView { automation: s.automation, ..old(self)@ })
            }),
    {
        let table = handler();
        let route = match route(&table, r.url.path.as_str()) {
            Some(route) => route,
            None => {
                http404(w);
                return Action::Done;
            },
        };
        if !self.passes(route, w, r) {
            return Action::Done;
        }
        match route {
            Route::AutoUnlock => if handle_auto_unlock(&mut self.automation, w, r) {
                Action::Save
            } else {
                Action::Done
            },
            Route::AutoHangup => if handle_auto_hangup(&mut self.automation, w, r) {
                Action::Save
            } else {
                Action::Done
            },
            Route::Automation => {
                handle_automation_get(&self.automation, w);
                Action::Done
            },
            Route::Info => {
                handle_info(&self.cfg, self.version.as_str(), self.pid, w);
                Action::Done
            },
            Route::Playback => {
                handle_playback(w);
                Action::Done
            },
            Route::Unlock => match plan_unlock(r.body.as_slice()) {
                Ok(p) => Action::Dispatch(p),
                Err(m) => {
                    error_json(w, STATUS_BAD_REQUEST, m.as_str());
                    Action::Done
                },
            },
            Route::VideoStart => match admit_video(self.video, &self.cfg.stations, w, r) {
                Some(o) => Action::StartVideo(o),
                None => Action::Done,
            },
            Route::VideoStop => match admit_video(self.video, &self.cfg.stations, w, r) {
                Some(o) => Action::StopVideo(o),
                None => Action::Done,
            },
            Route::VideoResource => {
                if !self.video {
                    error_json(w, STATUS_SERVICE_UNAVAILABLE, VIDEO_NOT_ENABLED);
                    return Action::Done;
                }
                match split_video_path(r.url.path.as_str()) {
                    Some((session_id, resource)) => Action::Watch { session_id, resource },
                    None => {
                        error_json(w, STATUS_NOT_FOUND, "video: malformed path");
                        Action::Done
                    },
                }
            },
        }
    }
}

/// Requests change the flags only through the two endpoints for them, by `POST`.
pub proof fn law_flags_change_by_post(s: ServerView, r: RequestView, before: Reply)
    ensures
        served(s, r, before).automation != s.automation ==> (r.path == "/auto_unlock"@ || r.path
            == "/auto_hangup"@) && r.method == crate::httpx::METHOD_POST@,
{
}

/// Whatever is asked under a path that is not listed, the answer is the same.
pub proof fn law_unknown_path_is_not_found(s: ServerView, r: RequestView, before: Reply)
    requires
        !is_listed(r.path),
        !text::has_prefix(r.path, "/video/"@),
    ensures
        served(s, r, before) == answered(s, mux::not_found(before)),
{
}

/// Without stations nothing is ever unlocked.
pub proof fn law_no_stations_no_unlock(s: ServerView, r: RequestView, before: Reply)
    requires
        s.cfg.stations.len() == 0,
    ensures
        served(s, r, before).action !is Dispatch,
{
}

/// Where video is not forwarded, no session is started, stopped or looked up.
pub proof fn law_no_video_no_session(s: ServerView, r: RequestView, before: Reply)
    requires
        !s.video,
    ensures
        served(s, r, before).action !is StartVideo,
        served(s, r, before).action !is StopVideo,
        served(s, r, before).action !is Watch,
{
}

} // verus!
