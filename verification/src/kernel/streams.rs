//! Pushing streams.

use vstd::prelude::*;

use crate::channel::message::opt_view;
use crate::error::Error;
use crate::kernel::auth::AuthPolicy;
use crate::kernel::data_plane::DataPlaneBackend;
use crate::kernel::session::SessionPrefs;
use crate::kernel::session_api::{local_session, new_session, plane_error};
use crate::kernel::{AnchorModel, Kernel, KernelModel, RunningModel, RunningStream};
use crate::message::{texts, ReliabilityProfile};
use crate::text::{dec, decimal, hex, hexadecimal, join2, join3};

verus! {

/// The port of the resident relay when nothing else is known.
pub const DEFAULT_PORT: u16 = 18777;

/// What is captured as video.
#[derive(Debug, Clone, Copy, PartialEq, Eq, Structural)]
pub enum VideoSource {
    Screen,
    Camera,
}

/// How much detail is captured.
#[derive(Debug, Clone, Copy, PartialEq, Eq, Structural)]
pub enum Quality {
    Low,
    Medium,
    High,
}

/// What is to be captured and pushed.
#[derive(Debug)]
pub struct StreamConfig {
    pub stream_id: String,
    pub title: String,
    pub video: Option<VideoSource>,
    pub quality: Quality,
    /// Whether sound is captured.
    pub audio: bool,
    /// When to stop, in seconds; without end when it is not given.
    pub duration_secs: Option<u64>,
    /// The token with which the stream is let in elsewhere.
    pub share_token: Option<String>,
}

/// The address to push to a relay of this node: pictures over SRT, else QUIC, else the WebSocket;
/// sound alone over QUIC, else the WebSocket.
pub open spec fn push_address(
    port: u16,
    srt_port: Option<u16>,
    quic_port: Option<u16>,
    video: bool,
) -> Seq<char> {
    if video && srt_port is Some {
        "srt://127.0.0.1:"@ + dec(srt_port->0 as nat)
    } else if quic_port is Some {
        "quic://127.0.0.1:"@ + dec(quic_port->0 as nat)
    } else {
        "ws://127.0.0.1:"@ + dec(port as nat) + "/ws/push"@
    }
}

/// The address to push to a relay of this node.
pub fn auto_push_url(port: u16, srt_port: Option<u16>, quic_port: Option<u16>, video: bool) -> (r:
    String)
    ensures
        r@ == push_address(port, srt_port, quic_port, video),
{
    if video {
        match srt_port {
            Some(p) => {
                return join2("srt://127.0.0.1:", decimal(p as u64).as_str());
            },
            None => {},
        }
    }
    match quic_port {
        Some(p) => join2("quic://127.0.0.1:", decimal(p as u64).as_str()),
        None => join3("ws://127.0.0.1:", decimal(port as u64).as_str(), "/ws/push"),
    }
}

/// What a push that started is told.
#[derive(Debug)]
pub struct StartResult {
    pub relay_port: u16,
    pub stream_id: String,
}

/// Whether this node pushes, as it is shown.
#[derive(Debug)]
pub struct StreamStatus {
    pub running: bool,
    pub stream_id: Option<String>,
    pub title: Option<String>,
    pub relay_port: Option<u16>,
    pub started_at: Option<u64>,
}

/// What the capture says about itself.
#[derive(Debug)]
pub struct CaptureStatus {
    pub started: bool,
    pub error: Option<String>,
}

/// What is shown about the capture.
#[derive(Debug)]
pub struct CaptureStatusView {
    pub active: bool,
    pub started: bool,
    pub error: Option<String>,
}

/// The address to which a push goes: the one that is given, else that of the resident relay.
pub open spec fn push_target(
    anchor: Option<AnchorModel>,
    given: Option<Seq<char>>,
    video: bool,
) -> Option<Seq<char>> {
    match given {
        Some(u) => Some(u),
        None => match anchor {
            Some(a) => Some(push_address(a.port, a.srt_port, a.quic_port, video)),
            None => None,
        },
    }
}

/// Whether a push needs a session to be created first: this node drives a data plane, the stream is
/// not let in by a token, and there is no session of its name.
pub open spec fn needs_session<P: AuthPolicy, D: DataPlaneBackend>(
    k: KernelModel<P, D>,
    cfg: &StreamConfig,
) -> bool {
    &&& cfg.share_token is None
    &&& k.control.data_plane is Some
    &&& !k.control.sessions@.dom().contains(cfg.stream_id@)
}

/// What preparing a push does to the sessions: one of this node is created, with the next id, when
/// it is needed and the data plane lets its stream in.
pub open spec fn session_prepared<P: AuthPolicy, D: DataPlaneBackend>(
    pre: KernelModel<P, D>,
    post: KernelModel<P, D>,
    before: &StreamConfig,
    after: &StreamConfig,
    r: Result<(), Error>,
) -> bool {
    let id = "sess-"@ + hex(pre.control.next_id as nat);
    &&& after.title == before.title
    &&& after.video == before.video
    &&& after.quality == before.quality
    &&& after.audio == before.audio
    &&& after.duration_secs == before.duration_secs
    &&& after.share_token == before.share_token
    &&& if !needs_session(pre, before) {
        &&& r is Ok
        &&& post == pre
        &&& after.stream_id == before.stream_id
    } else {
        &&& post == (KernelModel { control: post.control, ..pre })
        &&& post.control.next_id == pre.control.next_id.wrapping_add(1)
        &&& post.control.graph == pre.control.graph
        &&& post.control.share_tokens == pre.control.share_tokens
        &&& post.control.auth == pre.control.auth
        &&& post.control.data_plane is Some
        &&& r is Ok <==> pre.control.data_plane->0.admits(id)
        &&& r is Ok ==> {
            &&& after.stream_id@ == id
            &&& post.control.sessions@ == pre.control.sessions@.insert(
                id,
                local_session(pre.control.graph@, id, before.title@),
            )
            &&& post.control.data_plane->0.streams()
                == pre.control.data_plane->0.streams().insert(id)
        }
        &&& r matches Err(e) ==> {
            &&& plane_error(e, "预授权失败: "@)
            &&& after.stream_id == before.stream_id
            &&& post.control.sessions == pre.control.sessions
        }
    }
}

impl<P: AuthPolicy, D: DataPlaneBackend> Kernel<P, D> {
    /// Makes sure that a push belongs to a session: a controlled relay lets no other stream in. One
    /// that is let in elsewhere by a token keeps its name.
    pub fn ensure_session(&mut self, cfg: &mut StreamConfig) -> (r: Result<(), Error>)
        requires
            old(self).wf(),
        ensures
            final(self).wf(),
            session_prepared(old(self)@, final(self)@, old(cfg), final(cfg), r),
    {
        if cfg.share_token.is_some() || !self.has_data_plane() || self.control.has_session(
            cfg.stream_id.as_str(),
        ) {
            return Ok(());
        }
        let ghost m0 = self@;
        let n: u64 = self.control.next_id;
        self.control.next_id = n.wrapping_add(1);
        let id: String = join2("sess-", hexadecimal(n).as_str());
        let mut sinks: Vec<String> = Vec::new();
        sinks.push("local".to_owned());
        let prefs = SessionPrefs {
            profile: ReliabilityProfile::Lossy,
            preferred_transport: None,
            access_code: None,
            title: cfg.title.clone(),
        };
        assert(texts(sinks@) =~= seq!["local"@]);
        assert(new_session(m0.control.graph@, id@, "local"@, texts(sinks@), &prefs)
            =~= local_session(m0.control.graph@, id@, cfg.title@));
        let made = self.control.build_session(id.as_str(), "local", &sinks, &prefs);
        assert(self@ =~= KernelModel { control: self@.control, ..m0 });
        match made {
            Err(e) => Err(e),
            Ok(session) => {
                cfg.stream_id = session.id;
                Ok(())
            },
        }
    }

    /// Begins a push: there must be a capture, and the stream gets its session. The result is the
    /// address to push to; without one, a relay of its own is to be started.
    pub fn prepare_stream(&mut self, cfg: &mut StreamConfig, relay_url: Option<String>) -> (r: Result<
        Option<String>,
        Error,
    >)
        requires
            old(self).wf(),
        ensures
            final(self).wf(),
            old(self)@.backend is None ==> {
                &&& r matches Err(Error::Message(t)) && t@ == "采集后端未初始化"@
                &&& final(self)@ == old(self)@
                &&& *final(cfg) == *old(cfg)
            },
            old(self)@.backend is Some ==> {
                &&& session_prepared(
                    old(self)@,
                    final(self)@,
                    old(cfg),
                    final(cfg),
                    match r {
                        Ok(_) => Ok(()),
                        Err(e) => Err(e),
                    },
                )
                &&& r matches Ok(u) ==> opt_view(u) == push_target(
                    old(self)@.anchor,
                    opt_view(relay_url),
                    old(cfg).video is Some,
                )
            },
    {
        if self.backend.is_none() {
            return Err(Error::Message("采集后端未初始化".to_owned()));
        }
        match self.ensure_session(cfg) {
            Err(e) => {
                return Err(e);
            },
            Ok(()) => {},
        }
        match relay_url {
            Some(u) => Ok(Some(u)),
            None => match &self.anchor {
                Some(a) => Ok(
                    Some(auto_push_url(a.port, a.srt_port, a.quic_port, cfg.video.is_some())),
                ),
                None => Ok(None),
            },
        }
    }

    /// Notes that a push is running. A second push of the same stream is refused, and is to be
    /// stopped.
    pub fn complete_stream(&mut self, cfg: &StreamConfig, engine_port: Option<u16>, now: u64) -> (r:
        Result<StartResult, Error>)
        requires
            old(self).wf(),
        ensures
            final(self).wf(),
            old(self)@.engines.dom().contains(cfg.stream_id@) ==> {
                &&& r matches Err(Error::Message(t)) && t@ == "该流已在推流中"@
                &&& final(self)@ == old(self)@
            },
            !old(self)@.engines.dom().contains(cfg.stream_id@) ==> {
                let port = effective_port(engine_port, old(self)@.anchor);
                &&& r matches Ok(s) && s.relay_port == port && s.stream_id@ == cfg.stream_id@
                &&& final(self)@ == (KernelModel {
                    engines: old(self)@.engines.insert(
                        cfg.stream_id@,
                        RunningModel {
                            relay_port: port,
                            title: cfg.title@,
                            stream_id: cfg.stream_id@,
                            started_at: now,
                        },
                    ),
                    ..old(self)@
                })
            },
    {
        if self.engines.contains(&cfg.stream_id) {
            return Err(Error::Message("该流已在推流中".to_owned()));
        }
        let relay_port: u16 = match engine_port {
            Some(p) => p,
            None => match self.relay_port() {
                Some(p) => p,
                None => DEFAULT_PORT,
            },
        };
        let stream = RunningStream {
            relay_port,
            title: cfg.title.clone(),
            stream_id: cfg.stream_id.clone(),
            started_at: now,
        };
        let ghost sm = stream@;
        let _ = self.engines.insert(cfg.stream_id.clone(), stream);
        assert(self@.engines =~= old(self)@.engines.insert(cfg.stream_id@, sm));
        assert(self@ =~= KernelModel { engines: self@.engines, ..old(self)@ });
        Ok(StartResult { relay_port, stream_id: cfg.stream_id.clone() })
    }

    /// Ends all pushes; the result are those that are to be stopped.
    pub fn stop_stream(&mut self) -> (r: Vec<RunningStream>)
        requires
            old(self).wf(),
        ensures
            final(self).wf(),
            final(self)@ == (KernelModel {
                engines: Map::<Seq<char>, RunningModel>::empty(),
                ..old(self)@
            }),
            r@.len() == old(self)@.engines.dom().len(),
            forall|i: int|
                0 <= i < r@.len() ==> {
                    &&& old(self)@.engines.dom().contains((#[trigger] r@[i])@.stream_id)
                    &&& r@[i]@ == old(self)@.engines[r@[i]@.stream_id]
                },
            forall|i: int, j: int|
                #![trigger r@[i], r@[j]]
                0 <= i < j < r@.len() ==> r@[i]@.stream_id != r@[j]@.stream_id,
    {
        let ghost all = self@.engines;
        let mut r: Vec<RunningStream> = Vec::new();
        let mut more: bool = true;
        proof {
            self.engines.lemma_keys();
            assert(self@.engines.dom() =~= self.engines@.dom());
        }
        let ghost count = self.engines.keys().len();
        while more
            invariant
                self.wf(),
                self@ == (KernelModel { engines: self@.engines, ..old(self)@ }),
                all == old(self)@.engines,
                r@.len() + self.engines.keys().len() == count,
                forall|k: Seq<char>| #[trigger]
                    self@.engines.dom().contains(k) ==> all.dom().contains(k) && self@.engines[k]
                        == all[k],
                forall|i: int|
                    0 <= i < r@.len() ==> {
                        &&& all.dom().contains((#[trigger] r@[i])@.stream_id)
                        &&& r@[i]@ == all[r@[i]@.stream_id]
                        &&& !self@.engines.dom().contains(r@[i]@.stream_id)
                    },
                forall|i: int, j: int|
                    #![trigger r@[i], r@[j]]
                    0 <= i < j < r@.len() ==> r@[i]@.stream_id != r@[j]@.stream_id,
                !more ==> self@.engines == Map::<Seq<char>, RunningModel>::empty()
                    && self.engines.keys().len() == 0,
            decreases
                    (if more {
                        1nat
                    } else {
                        0nat
                    }),
                    self.engines.keys().len(),
        {
            let ghost before = self@;
            match self.engines.pop() {
                None => {
                    more = false;
                    assert(self@.engines =~= Map::<Seq<char>, RunningModel>::empty());
                    assert(self@ =~= before);
                },
                Some(e) => {
                    let ghost k = e.0@;
                    assert(before.engines.dom().contains(k));
                    r.push(e.1);
                    assert(self@.engines =~= before.engines.remove(k));
                    assert(self@ =~= KernelModel { engines: self@.engines, ..before });
                },
            }
        }
        assert(self@ =~= KernelModel {
            engines: Map::<Seq<char>, RunningModel>::empty(),
            ..old(self)@
        });
        r
    }

    /// One of the pushes that are running.
    fn first_stream(&self) -> (r: Option<&RunningStream>)
        requires
            self.wf(),
        ensures
            match r {
                Some(s) => self@.engines.dom().contains(s.stream_id@) && s@
                    == self@.engines[s.stream_id@],
                None => self@.engines == Map::<Seq<char>, RunningModel>::empty(),
            },
    {
        let n: usize = self.engines.len();
        proof {
            self.engines.lemma_keys();
        }
        if n == 0 {
            assert(self@.engines =~= Map::<Seq<char>, RunningModel>::empty()) by {
                assert forall|k: Seq<char>| !self.engines@.dom().contains(k) by {
                    if self.engines@.dom().contains(k) {
                        assert(self.engines.keys().contains(k));
                    }
                }
            }
            return None;
        }
        let s: &RunningStream = self.engines.value_at(0);
        assert(self.engines@.dom().contains(self.engines.keys()[0]));
        Some(s)
    }

    /// Whether this node pushes; of several streams one is shown.
    pub fn stream_status(&self) -> (r: StreamStatus)
        requires
            self.wf(),
        ensures
            r.running == (self@.engines != Map::<Seq<char>, RunningModel>::empty()),
            r.running ==> exists|k: Seq<char>| #[trigger]
                self@.engines.dom().contains(k) && shows_stream(r, self@.engines[k]),
            !r.running ==> r.stream_id is None && r.title is None && r.relay_port is None
                && r.started_at is None,
    {
        match self.first_stream() {
            Some(s) => {
                let r = StreamStatus {
                    running: true,
                    stream_id: Some(s.stream_id.clone()),
                    title: Some(s.title.clone()),
                    relay_port: Some(s.relay_port),
                    started_at: Some(s.started_at),
                };
                assert(self@.engines.dom().contains(s.stream_id@));
                assert(shows_stream(r, self@.engines[s.stream_id@]));
                r
            },
            None => StreamStatus {
                running: false,
                stream_id: None,
                title: None,
                relay_port: None,
                started_at: None,
            },
        }
    }

    /// What is shown about the capture: what it says of itself while this node pushes.
    pub fn capture_status(&self, reported: CaptureStatus) -> (r: CaptureStatusView)
        requires
            self.wf(),
        ensures
            r.active == (self@.engines != Map::<Seq<char>, RunningModel>::empty()),
            r.active ==> r.started == reported.started && r.error == reported.error,
            !r.active ==> !r.started && r.error is None,
    {
        match self.first_stream() {
            Some(_) => CaptureStatusView {
                active: true,
                started: reported.started,
                error: reported.error,
            },
            None => CaptureStatusView { active: false, started: false, error: None },
        }
    }

    /// The port of the relay to which this node pushes; of several pushes one counts.
    pub fn stream_relay_port(&self) -> (r: u16)
        requires
            self.wf(),
        ensures
            self@.engines == Map::<Seq<char>, RunningModel>::empty() ==> r == DEFAULT_PORT,
            self@.engines != Map::<Seq<char>, RunningModel>::empty() ==> exists|k: Seq<char>|
                #[trigger] self@.engines.dom().contains(k) && r == self@.engines[k].relay_port,
    {
        match self.first_stream() {
            Some(s) => {
                assert(self@.engines.dom().contains(s.stream_id@));
                s.relay_port
            },
            None => DEFAULT_PORT,
        }
    }
}

/// The port at which a push can be watched: that of its own relay, else that of the resident one,
/// else the usual one.
pub open spec fn effective_port(engine_port: Option<u16>, anchor: Option<AnchorModel>) -> u16 {
    match engine_port {
        Some(p) => p,
        None => match anchor {
            Some(a) => a.port,
            None => DEFAULT_PORT,
        },
    }
}

/// Whether a status shows a stream.
pub open spec fn shows_stream(r: StreamStatus, s: RunningModel) -> bool {
    &&& opt_view(r.stream_id) == Some(s.stream_id)
    &&& opt_view(r.title) == Some(s.title)
    &&& r.relay_port == Some(s.relay_port)
    &&& r.started_at == Some(s.started_at)
}

/// Pictures are pushed over SRT when the relay takes it; sound alone never is. Otherwise QUIC is taken,
/// and the WebSocket when there is nothing else. The address names the port of the way that is taken.
pub proof fn law_push_takes_the_best_way(
    port: u16,
    srt_port: Option<u16>,
    quic_port: Option<u16>,
    video: bool,
    r: String,
)
    requires
        call_ensures(auto_push_url, (port, srt_port, quic_port, video), r),
    ensures
        video && srt_port is Some ==> r@ == "srt://127.0.0.1:"@ + dec(srt_port->0 as nat),
        quic_port is Some && !(video && srt_port is Some) ==> r@ == "quic://127.0.0.1:"@ + dec(
            quic_port->0 as nat,
        ),
        quic_port is None && !(video && srt_port is Some) ==> r@ == "ws://127.0.0.1:"@ + dec(
            port as nat,
        ) + "/ws/push"@,
{
}

/// A push that has begun is shown as running, with its stream, title, port and time, when it is the
/// only one; and once all pushes are stopped none is shown.
pub proof fn law_push_is_shown_while_it_runs<P: AuthPolicy, D: DataPlaneBackend>(
    app: &mut Kernel<P, D>,
    cfg: &StreamConfig,
    engine_port: u16,
    now: u64,
    r: Result<StartResult, Error>,
    shown: StreamStatus,
    ended: &mut Kernel<P, D>,
    stopped: Vec<RunningStream>,
    quiet: StreamStatus,
)
    requires
        old(app)@.engines.dom() == Set::<Seq<char>>::empty(),
        call_ensures(Kernel::<P, D>::complete_stream, (app, cfg, Some(engine_port), now), r),
        call_ensures(Kernel::<P, D>::stream_status, (&*final(app),), shown),
        *old(ended) == *final(app),
        call_ensures(Kernel::<P, D>::stop_stream, (ended,), stopped),
        call_ensures(Kernel::<P, D>::stream_status, (&*final(ended),), quiet),
    ensures
        r matches Ok(s) && s.stream_id@ == cfg.stream_id@ && s.relay_port == engine_port,
        shown.running,
        shown.stream_id matches Some(s) && s@ == cfg.stream_id@,
        shown.title matches Some(t) && t@ == cfg.title@,
        shown.relay_port == Some(engine_port),
        shown.started_at == Some(now),
        stopped@.len() == 1,
        stopped@[0].stream_id@ == cfg.stream_id@,
        !quiet.running,
        quiet.stream_id is None,
{
    let k = final(app)@.engines;
    assert(k.dom() =~= set![cfg.stream_id@]);
    assert(k.dom().len() == 1);
    assert(k.dom().contains(cfg.stream_id@));
    assert(k != Map::<Seq<char>, RunningModel>::empty());
    assert(k.dom().contains(stopped@[0]@.stream_id));
}

/// A push that needs no session of this node begins as it was asked for: towards the address that is
/// given, else towards the relay of this node; without a capture it does not begin.
pub proof fn law_push_begins_as_asked<P: AuthPolicy, D: DataPlaneBackend>(
    app: &mut Kernel<P, D>,
    cfg: &mut StreamConfig,
    relay_url: Option<String>,
    r: Result<Option<String>, Error>,
)
    requires
        call_ensures(Kernel::<P, D>::prepare_stream, (app, cfg, relay_url), r),
    ensures
        r is Ok ==> old(app).backend is Some,
        old(app).backend is Some && (old(cfg).share_token is Some || old(app).control.data_plane
            is None || old(app).control.sessions@.dom().contains(old(cfg).stream_id@)) ==> {
            &&& r is Ok
            &&& final(cfg).stream_id@ == old(cfg).stream_id@
            &&& final(cfg).video == old(cfg).video
            &&& final(cfg).audio == old(cfg).audio
            &&& relay_url matches Some(u) ==> (r->Ok_0 matches Some(x) && x@ == u@)
            &&& relay_url is None && old(app).anchor is None ==> r->Ok_0 is None
            &&& relay_url is None ==> (r->Ok_0 is Some <==> old(app).anchor is Some)
            &&& final(app)@ == old(app)@
        },
{
}

/// A push through a data plane that this node drives gets a session of its own when there is none of
/// its name, and goes out under the id of that session, which the data plane lets in.
pub proof fn law_driven_push_gets_a_session<P: AuthPolicy, D: DataPlaneBackend>(
    app: &mut Kernel<P, D>,
    cfg: &mut StreamConfig,
    r: Result<(), Error>,
)
    requires
        call_ensures(Kernel::<P, D>::ensure_session, (app, cfg), r),
        old(cfg).share_token is None,
        old(app).control.data_plane is Some,
        !old(app).control.sessions@.dom().contains(old(cfg).stream_id@),
    ensures
        r is Ok ==> ({
            let id = final(cfg).stream_id@;
            &&& final(app).control.sessions@.dom().contains(id)
            &&& final(app).control.sessions@[id].title == old(cfg).title@
            &&& final(app).control.data_plane matches Some(d) && d.streams().contains(id)
            &&& final(cfg).title@ == old(cfg).title@
        }),
        r is Err ==> final(app).control.sessions@ == old(app).control.sessions@
            && final(cfg).stream_id@ == old(cfg).stream_id@,
{
}

/// What the capture says of itself is shown while something is pushed, and only then.
pub proof fn law_capture_is_shown_while_pushing<P: AuthPolicy, D: DataPlaneBackend>(
    app: &Kernel<P, D>,
    reported: CaptureStatus,
    r: CaptureStatusView,
    shown: StreamStatus,
)
    requires
        call_ensures(Kernel::<P, D>::capture_status, (app, reported), r),
        call_ensures(Kernel::<P, D>::stream_status, (app,), shown),
    ensures
        r.active == shown.running,
        shown.running ==> r.started == reported.started && opt_view(r.error) == opt_view(
            reported.error,
        ),
        !shown.running ==> !r.started && r.error is None,
{
}

} // verus!
