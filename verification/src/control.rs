//! Controlling a running node from the same machine.

use vstd::prelude::*;

use crate::channel::message::opt_view;
use crate::error::Error;
use crate::kernel::anchor::{announcement_settled, MdnsAction};
use crate::kernel::auth::{opt_text, AuthPolicy};
use crate::kernel::data_plane::DataPlaneBackend;
use crate::kernel::endpoint::file_source::FileSource;
use crate::kernel::endpoint::manifest::EndpointManifest;
use crate::kernel::endpoint::mounts::{
    first_free, lists, manifests_listed, FileMeta, FileOffer,
};
use crate::kernel::endpoint::registry::{file_outcome, file_shared};
use crate::kernel::endpoint_api::{
    announced, announced_codecs, announced_transports, unpublished, withdrawn_after, Published,
    Unpublished,
};
use crate::kernel::session::{control_granted, Session, SessionModel, SessionPrefs};
use crate::kernel::session_api::{
    is_pin, new_session, new_token, open_session, plane_error, torn_down, unexpired, ControlPlane,
};
use crate::kernel::share_service::share_stopped;
use crate::kernel::streams::{
    auto_push_url, push_target, session_prepared, shows_stream, StartResult, StreamConfig, DEFAULT_PORT,
};
use crate::kernel::{Kernel, KernelModel, RunningModel, RunningStream};
use crate::message::{
    clone_strings, texts, CodecId, Delivery, EndpointId, MediaKind, RefModel, ReliabilityProfile,
    TransportPreference, Visibility,
};
use crate::negotiator::dto::{PendingRequest, ShareGrant};
use crate::negotiator::grant::ShareStart;
use crate::negotiator::server::{
    listed_request, responded, wait_end, NegotiatorModel, Responded, ShareNegotiator, WaitEnd,
};
use crate::order::text_le;
use crate::text::{hex, hexadecimal, join2, same};

verus! {

/// The port at which a node is controlled.
pub const DEFAULT_CTRL_PORT: u16 = 18778;

/// How long a token is valid when the request does not say it, in seconds.
pub const DEFAULT_TOKEN_TTL_SECS: u64 = 300;

/// What a node is asked to do.
#[allow(inconsistent_fields)]
pub enum CtrlRequest {
    CreateSession { title: String, sinks: Vec<String> },
    Authorize { session_id: String, access_code: Option<String> },
    Teardown { session_id: String },
    StartStream { config: StreamConfig, relay_url: Option<String> },
    ShareToken { session_id: String, ttl_secs: u64 },
    StopStream,
    ListSessions,
    Status,
    NegotiatorPending,
    NegotiatorRespond { req_id: String, allow: bool, remember: bool },
    EndpointPublish {
        endpoint_id: EndpointId,
        visibility: Visibility,
        delivery: Delivery,
        transports: Option<Vec<TransportPreference>>,
        codecs: Option<Vec<CodecId>>,
    },
    /// The file was looked at before.
    EndpointPublishFile { offer: FileOffer, visibility: Visibility, delivery: Delivery },
    EndpointUnpublish { endpoint_id: String },
    EndpointList,
}

/// What a waiting device was answered.
#[derive(Debug)]
pub struct GrantResponseView {
    pub stream_id: Option<String>,
    pub pin: Option<String>,
    pub expires_at: Option<u64>,
    pub trusted: bool,
    pub denied: bool,
}

/// A file that is shared now.
#[derive(Debug)]
pub struct FilePublishedView {
    pub endpoint_id: EndpointId,
    pub name: String,
    pub size: u64,
    pub delivery: Delivery,
}

/// A token that was issued.
#[derive(Debug)]
pub struct IssuedShareTokenView {
    pub token: String,
    pub stream_id: String,
    pub pin: String,
    pub expires_at: u64,
    pub media: Vec<MediaKind>,
}

/// A session as it is listed.
#[derive(Debug)]
pub struct SessionView {
    pub session_id: String,
    pub source: String,
    pub sinks: Vec<String>,
    pub requires_pin: bool,
}

/// How a node is doing.
#[derive(Debug)]
pub struct StatusView {
    pub version: String,
    pub platform: String,
    pub uptime_secs: u64,
    pub relay_port: u16,
    pub srt_port: Option<u16>,
    pub quic_port: Option<u16>,
    pub streaming: bool,
    pub stream_id: Option<String>,
    pub stream_title: Option<String>,
    pub stream_started_at: Option<u64>,
    pub sessions: usize,
}

/// What a node answers.
pub enum CtrlPayload {
    Pending(Vec<PendingRequest>),
    Answered(GrantResponseView),
    Manifest(EndpointManifest),
    FilePublished(FilePublishedView),
    Unpublished(EndpointId),
    Endpoints(Vec<EndpointManifest>),
    SessionCreated { session_id: String, title: String },
    Authorized { session_id: String },
    TornDown { session_id: String },
    Started(StartResult),
    Token(IssuedShareTokenView),
    Stopped,
    Sessions(Vec<SessionView>),
    Status(StatusView),
}

/// Whether a request was carried out.
pub enum CtrlResponse {
    Done { payload: CtrlPayload },
    Failed { message: String },
}

impl CtrlResponse {
    pub fn ok(payload: CtrlPayload) -> (r: CtrlResponse)
        ensures
            r == (CtrlResponse::Done { payload }),
    {
        CtrlResponse::Done { payload }
    }

    pub fn err(message: String) -> (r: CtrlResponse)
        ensures
            r == (CtrlResponse::Failed { message }),
    {
        CtrlResponse::Failed { message }
    }

    /// The response to something that is no request, for the given reason.
    pub fn malformed(why: &str) -> (r: CtrlResponse)
        ensures
            r.says("非法请求: "@ + why@),
    {
        CtrlResponse::Failed { message: join2("非法请求: ", why) }
    }

    /// Whether the response reports an error with the given text.
    pub open spec fn says(self, text: Seq<char>) -> bool {
        self matches CtrlResponse::Failed { message } && message@ == text
    }
}

/// What is left to be done outside of the node's state.
pub enum Effect {
    Nothing,
    /// What the node tells about itself changed.
    Announce(MdnsAction),
    /// An endpoint is no longer announced, or was not; its push is to be stopped.
    Withdraw { action: Option<MdnsAction>, engine: Option<RunningStream> },
    StopEngines(Vec<RunningStream>),
    /// A waiting device is to be answered, and an endpoint may have to start sharing.
    Answer { req_id: String, end: WaitEnd, share: Option<ShareStart> },
}

/// How a request goes on.
pub enum CtrlStep {
    Reply { response: CtrlResponse, effect: Effect },
    /// A push is to be started; the request is answered once it runs.
    StartEngine { config: StreamConfig, push_url: Option<String> },
}

/// What an error is answered with.
pub open spec fn replies_error(r: CtrlStep, text: Seq<char>) -> bool {
    r matches CtrlStep::Reply { response, effect } && response.says(text) && effect is Nothing
}

/// What creating a session of this node comes to.
pub open spec fn session_created<P: AuthPolicy, D: DataPlaneBackend>(
    pre: &ControlPlane<P, D>,
    post: &ControlPlane<P, D>,
    sinks: Seq<Seq<char>>,
    prefs: &SessionPrefs,
    r: Result<Session, Error>,
) -> bool {
    let id = "sess-"@ + hex(pre.next_id as nat);
    let s = new_session(pre.graph@, id, "local"@, sinks, prefs);
    &&& post.next_id == pre.next_id.wrapping_add(1)
    &&& post.graph == pre.graph
    &&& post.share_tokens == pre.share_tokens
    &&& post.data_plane is Some <==> pre.data_plane is Some
    &&& if sinks.len() == 0 {
        &&& r matches Err(Error::Message(t)) && t@ == "会话至少需要一个接收端（sinks）"@
        &&& post.sessions == pre.sessions
        &&& post.auth == pre.auth
        &&& post.data_plane == pre.data_plane
    } else {
        &&& crate::kernel::session_api::code_noted(&pre.auth, &post.auth, id, prefs)
        &&& r is Ok <==> (pre.data_plane matches Some(d) ==> d.admits(id))
        &&& r matches Ok(got) ==> got@ == s && post.sessions@ == pre.sessions@.insert(id, s)
        &&& r matches Err(e) ==> plane_error(e, "预授权失败: "@) && post.sessions == pre.sessions
        &&& r is Ok && pre.data_plane is Some ==> post.data_plane->0.streams()
            == pre.data_plane->0.streams().insert(id)
    }
}

/// Whether a list shows all sessions, in the order of their ids.
pub open spec fn sessions_listed(
    sessions: Map<Seq<char>, SessionModel>,
    r: Seq<SessionView>,
) -> bool {
    &&& r.len() == sessions.dom().len()
    &&& forall|i: int|
        0 <= i < r.len() ==> {
            let v = #[trigger] r[i];
            &&& sessions.dom().contains(v.session_id@)
            &&& v.source@ == sessions[v.session_id@].source
            &&& texts(v.sinks@) == sessions[v.session_id@].sinks
            &&& v.requires_pin == sessions[v.session_id@].requires_pin
        }
    &&& forall|k: Seq<char>| #[trigger]
        sessions.dom().contains(k) ==> exists|i: int|
            0 <= i < r.len() && (#[trigger] r[i]).session_id@ == k
    &&& forall|i: int, j: int|
        #![trigger r[i], r[j]]
        0 <= i < j < r.len() ==> text_le(r[i].session_id@, r[j].session_id@)
}

/// Whether a view shows how a node is doing.
pub open spec fn status_shown<P: AuthPolicy, D: DataPlaneBackend>(
    k: KernelModel<P, D>,
    version: Seq<char>,
    uptime_secs: u64,
    v: StatusView,
) -> bool {
    let idle = k.engines == Map::<Seq<char>, RunningModel>::empty();
    &&& v.version@ == version
    &&& v.platform@ == k.platform.label()
    &&& v.uptime_secs == uptime_secs
    &&& match k.anchor {
        Some(a) => v.relay_port == a.port && v.srt_port == a.srt_port && v.quic_port == a.quic_port,
        None => {
            &&& v.srt_port is None
            &&& v.quic_port is None
            &&& idle ==> v.relay_port == DEFAULT_PORT
            &&& !idle ==> exists|s: Seq<char>| #[trigger]
                k.engines.dom().contains(s) && v.relay_port == k.engines[s].relay_port
        },
    }
    &&& v.streaming == !idle
    &&& idle ==> v.stream_id is None && v.stream_title is None && v.stream_started_at is None
    &&& !idle ==> exists|s: Seq<char>| #[trigger]
        k.engines.dom().contains(s) && opt_view(v.stream_id) == Some(k.engines[s].stream_id)
            && opt_view(v.stream_title) == Some(k.engines[s].title) && v.stream_started_at == Some(
            k.engines[s].started_at,
        )
    &&& v.sessions == k.control.sessions@.dom().len()
}

/// Whether pushes that are to be stopped are all that were running, each once.
pub open spec fn all_stopped(engines: Map<Seq<char>, RunningModel>, r: Seq<RunningStream>) -> bool {
    &&& r.len() == engines.dom().len()
    &&& forall|i: int|
        0 <= i < r.len() ==> engines.dom().contains((#[trigger] r[i])@.stream_id) && r[i]@
            == engines[r[i]@.stream_id]
    &&& forall|i: int, j: int|
        #![trigger r[i], r[j]]
        0 <= i < j < r.len() ==> r[i]@.stream_id != r[j]@.stream_id
}

/// What is shown of the answer of the user to a waiting request.
pub open spec fn answer_shown(result: Result<Option<ShareGrant>, String>, r: CtrlResponse) -> bool {
    match result {
        Ok(Some(g)) => r matches CtrlResponse::Done { payload } && (payload matches
            CtrlPayload::Answered(v) && {
            &&& opt_view(v.stream_id) == Some(g.view.stream_id@)
            &&& opt_view(v.pin) == Some(g.view.pin@)
            &&& v.expires_at == Some(g.view.expires_at)
            &&& v.trusted == g.trusted
            &&& !v.denied
        }),
        Ok(None) => r matches CtrlResponse::Done { payload } && (payload matches
            CtrlPayload::Answered(v) && {
            &&& v.stream_id is None
            &&& v.pin is None
            &&& v.expires_at is None
            &&& !v.trusted
            &&& v.denied
        }),
        Err(t) => r.says(t@),
    }
}

/// How a waiting device learns of the answer.
pub open spec fn answer_passed_on(
    result: Result<Option<ShareGrant>, String>,
    end: WaitEnd,
) -> bool {
    match result {
        Ok(Some(g)) => end matches WaitEnd::Granted(x) && x@ == g@,
        Ok(None) => end matches WaitEnd::Refused(t) && t@ == "用户拒绝"@,
        Err(_) => end is Lost,
    }
}

/// The kernel after nothing but its control plane may have changed.
pub open spec fn control_only<P: AuthPolicy, D: DataPlaneBackend>(
    pre: KernelModel<P, D>,
    post: KernelModel<P, D>,
) -> bool {
    post == (KernelModel { control: post.control, ..pre })
}

/// What giving the access code of a session comes to.
pub open spec fn code_given<P: AuthPolicy, D: DataPlaneBackend>(
    pre: &ControlPlane<P, D>,
    post: &ControlPlane<P, D>,
    id: Seq<char>,
    code: Option<Seq<char>>,
    r: Result<(), Error>,
) -> bool {
    &&& post.graph == pre.graph
    &&& post.auth == pre.auth
    &&& post.share_tokens == pre.share_tokens
    &&& post.data_plane == pre.data_plane
    &&& post.next_id == pre.next_id
    &&& if pre.auth.verdict(id, code) is Ok && pre.sessions@.dom().contains(id) {
        &&& r is Ok
        &&& post.sessions@ == pre.sessions@.insert(
            id,
            SessionModel { authorized: true, ..pre.sessions@[id] },
        )
    } else {
        &&& post.sessions@ == pre.sessions@
        &&& match pre.auth.verdict(id, code) {
            Err(crate::kernel::auth::AuthError::CodeRequired) => r matches Err(Error::PinRequired),
            Err(crate::kernel::auth::AuthError::CodeMismatch) => r matches Err(Error::PinMismatch),
            Ok(()) => r matches Err(Error::SessionNotFound(t)) && t@ == id,
        }
    }
}

/// What taking a session down comes to.
pub open spec fn session_removed<P: AuthPolicy, D: DataPlaneBackend>(
    pre: &ControlPlane<P, D>,
    post: &ControlPlane<P, D>,
    id: Seq<char>,
    r: Result<(), Error>,
) -> bool {
    if open_session(pre.sessions@, id) {
        torn_down(pre, post, id, r)
    } else {
        control_granted(pre.sessions@, id, r) && *post == *pre
    }
}

/// What issuing a token of a session comes to: microphones are let in.
pub open spec fn token_given<P: AuthPolicy, D: DataPlaneBackend>(
    pre: &ControlPlane<P, D>,
    post: &ControlPlane<P, D>,
    id: Seq<char>,
    ttl_secs: u64,
    now: u64,
    r: CtrlStep,
) -> bool {
    if pre.sessions@.dom().contains(id) {
        r matches CtrlStep::Reply { response, effect } && effect is Nothing && (response matches
            CtrlResponse::Done { payload } && (payload matches CtrlPayload::Token(v) && {
            let t = new_token(id, v.pin@, ttl_secs, now, seq![MediaKind::Mic]);
            &&& is_pin(v.pin@)
            &&& v.stream_id@ == id
            &&& v.expires_at == t.expires_at
            &&& v.media@ == t.media
            &&& v.token@ == t.text()
            &&& post.share_tokens@ == unexpired(pre.share_tokens@, now).insert(id, t)
            &&& post.graph == pre.graph
            &&& post.sessions == pre.sessions
            &&& post.auth == pre.auth
            &&& post.data_plane == pre.data_plane
            &&& post.next_id == pre.next_id
        }))
    } else {
        replies_error(r, "会话 "@ + id + " 不存在"@) && *post == *pre
    }
}

/// What an answer of the user comes to: it is shown, and the device that waits is told.
pub open spec fn user_answered<P: AuthPolicy, D: DataPlaneBackend>(
    n0: NegotiatorModel,
    n1: NegotiatorModel,
    k0: KernelModel<P, D>,
    k1: KernelModel<P, D>,
    req_id: Seq<char>,
    allow: bool,
    remember: bool,
    now: u64,
    r: CtrlStep,
    x: Responded,
) -> bool {
    &&& responded(n0, n1, k0, k1, req_id, allow, remember, now, x)
    &&& r matches CtrlStep::Reply { response, effect } && {
        &&& answer_shown(x.result, response)
        &&& if n0.pending.dom().contains(req_id) {
            effect matches Effect::Answer { req_id: id, end, share } && id@ == req_id
                && answer_passed_on(x.result, end) && share == x.share
        } else {
            effect is Nothing
        }
    }
}

/// Whether a step is what an answer of the user comes to.
pub open spec fn answer_taken<P: AuthPolicy, D: DataPlaneBackend>(
    n0: NegotiatorModel,
    n1: NegotiatorModel,
    k0: KernelModel<P, D>,
    k1: KernelModel<P, D>,
    req_id: Seq<char>,
    allow: bool,
    remember: bool,
    now: u64,
    r: CtrlStep,
) -> bool {
    exists|x: Responded| #[trigger]
        user_answered(n0, n1, k0, k1, req_id, allow, remember, now, r, x)
}

/// What a request comes to.
pub open spec fn ctrl_handled<P: AuthPolicy, D: DataPlaneBackend>(
    k0: KernelModel<P, D>,
    k1: KernelModel<P, D>,
    n0: Option<NegotiatorModel>,
    n1: Option<NegotiatorModel>,
    req: CtrlRequest,
    version: Seq<char>,
    uptime_secs: u64,
    now: u64,
    r: CtrlStep,
) -> bool {
    match req {
        CtrlRequest::NegotiatorPending => {
            &&& k1 == k0
            &&& n1 == n0
            &&& match n0 {
                None => replies_error(r, "凭证协商服务未启动（serve 未启用协商端点）"@),
                Some(n) => r matches CtrlStep::Reply { response, effect } && effect is Nothing && (
                response matches CtrlResponse::Done { payload } && (payload matches
                    CtrlPayload::Pending(v) && pending_listed(k0, n, v@))),
            }
        },
        CtrlRequest::NegotiatorRespond { req_id, allow, remember } => if n0 is None {
            &&& k1 == k0
            &&& n1 == n0
            &&& replies_error(r, "凭证协商服务未启动（serve 未启用协商端点）"@)
        } else {
            n1 is Some && answer_taken(
                n0->0,
                n1->0,
                k0,
                k1,
                req_id@,
                allow,
                remember,
                now,
                r,
            )
        },
        CtrlRequest::EndpointPublish { endpoint_id, visibility, delivery, transports, codecs } => {
            &&& n1 == n0
            &&& exists|p: Result<Published, Error>|
                {
                    &&& #[trigger] announced(
                        k0,
                        k1,
                        endpoint_id,
                        visibility@,
                        delivery,
                        announced_transports(k0.registry, endpoint_id, transports),
                        announced_codecs(codecs),
                        now,
                        p,
                    )
                    &&& match p {
                        Ok(x) => r matches CtrlStep::Reply { response, effect } && (response matches
                            CtrlResponse::Done { payload } && (payload matches
                            CtrlPayload::Manifest(m) && m == x.manifest)) && (effect matches
                            Effect::Announce(a) && a == x.action),
                        Err(e) => replies_error(r, e.text()),
                    }
                }
        },
        CtrlRequest::EndpointPublishFile { offer, visibility, delivery } => {
            let mid = KernelModel { registry: k1.registry, ..k0 };
            &&& n1 == n0
            &&& exists|p: Result<EndpointManifest, Error>|
                {
                    &&& #[trigger] file_outcome(
                        k0.registry,
                        k1.registry,
                        &offer,
                        visibility@,
                        delivery,
                        now,
                        p,
                    )
                    &&& match p {
                        Ok(m) => r matches CtrlStep::Reply { response, effect } && (response matches
                            CtrlResponse::Done { payload } && (payload matches
                            CtrlPayload::FilePublished(v) && {
                            let key = k1.registry.own(m@.id);
                            &&& v.endpoint_id == m@.id
                            &&& v.name@ == m@.name
                            &&& v.delivery == m@.delivery
                            &&& v.size == (if k1.registry.files.dom().contains(key) {
                                k1.registry.files[key].size
                            } else {
                                0
                            })
                        })) && (effect matches Effect::Announce(a) && announcement_settled(
                            mid,
                            k1,
                            a,
                        )),
                        Err(e) => replies_error(r, e.text()) && k1 == mid,
                    }
                }
        },
        CtrlRequest::EndpointUnpublish { endpoint_id } => {
            &&& n1 == n0
            &&& match EndpointId::parsed(endpoint_id@) {
                None => k1 == k0 && replies_error(r, "非法端点标识: "@ + endpoint_id@),
                Some(id) => exists|u: Unpublished|
                    {
                        &&& #[trigger] unpublished(k0, k1, id, now, u)
                        &&& r matches CtrlStep::Reply { response, effect } && (effect matches
                            Effect::Withdraw { action, engine } && engine == u.engine
                            && match u.result {
                            Ok(a) => action == Some(a) && (response matches CtrlResponse::Done {
                                payload,
                            } && (payload matches CtrlPayload::Unpublished(x) && x == id)),
                            Err(e) => action is None && response.says(e.text()),
                        })
                    },
            }
        },
        CtrlRequest::EndpointList => {
            &&& k1 == k0
            &&& n1 == n0
            &&& r matches CtrlStep::Reply { response, effect } && effect is Nothing && (response
                matches CtrlResponse::Done { payload } && (payload matches CtrlPayload::Endpoints(v)
                && manifests_listed(
                k0.registry.mounts,
                Some(k0.registry.self_node),
                false,
                v@,
            )))
        },
        CtrlRequest::CreateSession { title, sinks } => {
            &&& control_only(k0, k1)
            &&& n1 == n0
            &&& exists|s: Result<Session, Error>, prefs: SessionPrefs|
                {
                    &&& prefs.title@ == title@
                    &&& prefs.access_code is None
                    &&& prefs.preferred_transport is None
                    &&& prefs.profile == ReliabilityProfile::Lossy
                    &&& #[trigger] session_created(
                        &k0.control,
                        &k1.control,
                        texts(sinks@),
                        &prefs,
                        s,
                    )
                    &&& match s {
                        Ok(x) => r matches CtrlStep::Reply { response, effect } && effect is Nothing
                            && (response matches CtrlResponse::Done { payload } && (payload matches
                            CtrlPayload::SessionCreated { session_id, title: t } && session_id@
                            == x.id@ && t@ == x.title@)),
                        Err(e) => replies_error(r, e.text()),
                    }
                }
        },
        CtrlRequest::Authorize { session_id, access_code } => {
            &&& control_only(k0, k1)
            &&& n1 == n0
            &&& exists|x: Result<(), Error>|
                {
                    &&& #[trigger] code_given(
                        &k0.control,
                        &k1.control,
                        session_id@,
                        opt_view(access_code),
                        x,
                    )
                    &&& match x {
                        Ok(()) => r matches CtrlStep::Reply { response, effect } && effect is Nothing
                            && (response matches CtrlResponse::Done { payload } && (payload matches
                            CtrlPayload::Authorized { session_id: id } && id@ == session_id@)),
                        Err(e) => replies_error(r, e.text()),
                    }
                }
        },
        CtrlRequest::Teardown { session_id } => {
            &&& control_only(k0, k1)
            &&& n1 == n0
            &&& exists|x: Result<(), Error>|
                {
                    &&& #[trigger] session_removed(&k0.control, &k1.control, session_id@, x)
                    &&& match x {
                        Ok(()) => r matches CtrlStep::Reply { response, effect } && effect is Nothing
                            && (response matches CtrlResponse::Done { payload } && (payload matches
                            CtrlPayload::TornDown { session_id: id } && id@ == session_id@)),
                        Err(e) => replies_error(r, e.text()),
                    }
                }
        },
        CtrlRequest::StartStream { config, relay_url } => {
            &&& n1 == n0
            &&& push_prepared(k0, k1, config, relay_url, r)
        },
        CtrlRequest::ShareToken { session_id, ttl_secs } => {
            &&& control_only(k0, k1)
            &&& n1 == n0
            &&& token_given(&k0.control, &k1.control, session_id@, ttl_secs, now, r)
        },
        CtrlRequest::StopStream => {
            &&& k1 == (KernelModel { engines: Map::<Seq<char>, RunningModel>::empty(), ..k0 })
            &&& n1 == n0
            &&& r matches CtrlStep::Reply { response, effect } && (response matches
                CtrlResponse::Done { payload } && payload is Stopped) && (effect matches
                Effect::StopEngines(v) && all_stopped(k0.engines, v@))
        },
        CtrlRequest::ListSessions => {
            &&& k1 == k0
            &&& n1 == n0
            &&& r matches CtrlStep::Reply { response, effect } && effect is Nothing && (response
                matches CtrlResponse::Done { payload } && (payload matches CtrlPayload::Sessions(v)
                && sessions_listed(k0.control.sessions@, v@)))
        },
        CtrlRequest::Status => {
            &&& k1 == k0
            &&& n1 == n0
            &&& r matches CtrlStep::Reply { response, effect } && effect is Nothing && (response
                matches CtrlResponse::Done { payload } && (payload matches CtrlPayload::Status(v)
                && status_shown(k0, version, uptime_secs, v)))
        },
    }
}

/// What a request for a push comes to: it is refused, or the push is to be started.
pub open spec fn push_prepared<P: AuthPolicy, D: DataPlaneBackend>(
    k0: KernelModel<P, D>,
    k1: KernelModel<P, D>,
    config: StreamConfig,
    relay_url: Option<String>,
    r: CtrlStep,
) -> bool {
    if k0.backend is None {
        k1 == k0 && replies_error(r, "采集后端未初始化"@)
    } else {
        match r {
            CtrlStep::StartEngine { config: after, push_url } => {
                &&& session_prepared(k0, k1, &config, &after, Ok(()))
                &&& opt_view(push_url) == push_target(
                    k0.anchor,
                    opt_view(relay_url),
                    config.video is Some,
                )
            },
            CtrlStep::Reply { response, effect } => exists|e: Error, after: StreamConfig|
                {
                    &&& #[trigger] session_prepared(k0, k1, &config, &after, Err(e))
                    &&& replies_error(r, e.text())
                },
        }
    }
}

/// Whether a list shows all waiting requests, each once.
pub open spec fn pending_listed<P: AuthPolicy, D: DataPlaneBackend>(
    k: KernelModel<P, D>,
    n: NegotiatorModel,
    v: Seq<PendingRequest>,
) -> bool {
    &&& v.len() == n.pending.dom().len()
    &&& forall|i: int|
        0 <= i < v.len() ==> n.pending.dom().contains((#[trigger] v[i]).id@) && v[i]@
            == listed_request(k, v[i].id@, n.pending[v[i].id@])
    &&& forall|i: int, j: int| #![trigger v[i], v[j]] 0 <= i < j < v.len() ==> v[i].id@ != v[j].id@
}

/// The model of an optional negotiator.
pub open spec fn negotiator_view(n: Option<ShareNegotiator>) -> Option<NegotiatorModel> {
    match n {
        Some(x) => Some(x@),
        None => None,
    }
}

fn refused(e: &Error) -> (r: CtrlStep)
    ensures
        replies_error(r, e.text()),
{
    CtrlStep::Reply { response: CtrlResponse::err(e.to_user_string()), effect: Effect::Nothing }
}

fn refused_with(text: String) -> (r: CtrlStep)
    ensures
        replies_error(r, text@),
{
    CtrlStep::Reply { response: CtrlResponse::err(text), effect: Effect::Nothing }
}

fn answered(payload: CtrlPayload) -> (r: CtrlStep)
    ensures
        r == (CtrlStep::Reply {
            response: CtrlResponse::Done { payload },
            effect: Effect::Nothing,
        }),
{
    CtrlStep::Reply { response: CtrlResponse::ok(payload), effect: Effect::Nothing }
}

/// Creates a session of this node, under the next number.
fn create_session<P: AuthPolicy, D: DataPlaneBackend>(
    control: &mut ControlPlane<P, D>,
    sinks: &Vec<String>,
    prefs: &SessionPrefs,
) -> (r: Result<Session, Error>)
    requires
        old(control).wf(),
    ensures
        final(control).wf(),
        session_created(old(control), final(control), texts(sinks@), prefs, r),
{
    let n: u64 = control.next_id;
    control.next_id = n.wrapping_add(1);
    let id: String = join2("sess-", hexadecimal(n).as_str());
    control.build_session(id.as_str(), "local", sinks, prefs)
}

/// The sessions as they are listed.
fn session_views(sessions: &Vec<Session>) -> (r: Vec<SessionView>)
    ensures
        r@.len() == sessions@.len(),
        forall|i: int|
            0 <= i < r@.len() ==> {
                let v = #[trigger] r@[i];
                let s = sessions@[i]@;
                v.session_id@ == s.id && v.source@ == s.source && texts(v.sinks@) == s.sinks
                    && v.requires_pin == s.requires_pin
            },
{
    let mut r: Vec<SessionView> = Vec::new();
    let mut i: usize = 0;
    while i < sessions.len()
        invariant
            i <= sessions@.len(),
            r@.len() == i,
            forall|j: int|
                0 <= j < i ==> {
                    let v = #[trigger] r@[j];
                    let s = sessions@[j]@;
                    v.session_id@ == s.id && v.source@ == s.source && texts(v.sinks@) == s.sinks
                        && v.requires_pin == s.requires_pin
                },
        decreases sessions.len() - i,
    {
        let s = &sessions[i];
        r.push(
            SessionView {
                session_id: s.id.clone(),
                source: s.source.clone(),
                sinks: clone_strings(&s.sinks),
                requires_pin: s.requires_pin,
            },
        );
        i += 1;
    }
    r
}

fn list_sessions<P: AuthPolicy, D: DataPlaneBackend>(app: &Kernel<P, D>) -> (r: Vec<SessionView>)
    requires
        app.wf(),
    ensures
        sessions_listed(app@.control.sessions@, r@),
{
    let all = app.control.sessions.snapshot();
    let r = session_views(&all);
    proof {
        let sessions = app@.control.sessions@;
        assert forall|i: int| 0 <= i < r@.len() implies {
            let v = #[trigger] r@[i];
            &&& sessions.dom().contains(v.session_id@)
            &&& v.source@ == sessions[v.session_id@].source
            &&& texts(v.sinks@) == sessions[v.session_id@].sinks
            &&& v.requires_pin == sessions[v.session_id@].requires_pin
        } by {
            assert(all@[i]@.id == all@[i].id@);
        }
        app.control.sessions.lemma_ids();
        assert forall|k: Seq<char>| #[trigger] sessions.dom().contains(k) implies exists|i: int|
            0 <= i < r@.len() && (#[trigger] r@[i]).session_id@ == k by {
            let i = choose|i: int| 0 <= i < all@.len() && #[trigger] all@[i]@ == sessions[k];
            assert(r@[i].session_id@ == k);
        }
        assert forall|i: int, j: int|
            #![trigger r@[i], r@[j]]
            0 <= i < j < r@.len() implies text_le(r@[i].session_id@, r@[j].session_id@) by {
            assert(crate::order::Ranked::le(&all@[i], &all@[j]));
        }
    }
    r
}

fn status_view<P: AuthPolicy, D: DataPlaneBackend>(
    app: &Kernel<P, D>,
    version: &str,
    uptime_secs: u64,
) -> (r: StatusView)
    requires
        app.wf(),
    ensures
        status_shown(app@, version@, uptime_secs, r),
{
    let status = app.stream_status();
    let (relay_port, srt_port, quic_port) = match app.relay_ports() {
        Some(p) => p,
        None => (app.stream_relay_port(), None, None),
    };
    let sessions: usize = app.control.sessions.len();
    let r = StatusView {
        version: version.to_owned(),
        platform: app.platform_str().to_owned(),
        uptime_secs,
        relay_port,
        srt_port,
        quic_port,
        streaming: status.running,
        stream_id: status.stream_id,
        stream_title: status.title,
        stream_started_at: status.started_at,
        sessions,
    };
    proof {
        let k = app@;
        if k.engines != Map::<Seq<char>, RunningModel>::empty() {
            let s = choose|s: Seq<char>| #[trigger]
                k.engines.dom().contains(s) && shows_stream(status, k.engines[s]);
            assert(k.engines.dom().contains(s));
        }
    }
    r
}

/// Takes in a request.
pub fn handle_request<P: AuthPolicy, D: DataPlaneBackend>(
    app: &mut Kernel<P, D>,
    negotiator: &mut Option<ShareNegotiator>,
    req: CtrlRequest,
    version: &str,
    uptime_secs: u64,
    now: u64,
) -> (r: CtrlStep)
    requires
        old(app).wf(),
        *old(negotiator) matches Some(n) ==> n.wf(),
        req is EndpointPublishFile ==> old(app)@.registry.file_id_left(),
    ensures
        final(app).wf(),
        *final(negotiator) matches Some(n) ==> n.wf(),
        ctrl_handled(
            old(app)@,
            final(app)@,
            negotiator_view(*old(negotiator)),
            negotiator_view(*final(negotiator)),
            req,
            version@,
            uptime_secs,
            now,
            r,
        ),
{
    let ghost k0 = app@;
    match req {
        CtrlRequest::NegotiatorPending => match negotiator {
            None => refused_with("凭证协商服务未启动（serve 未启用协商端点）".to_owned()),
            Some(n) => answered(CtrlPayload::Pending(n.pending_requests(app))),
        },
        CtrlRequest::NegotiatorRespond { req_id, allow, remember } => match negotiator.take() {
            None => refused_with("凭证协商服务未启动（serve 未启用协商端点）".to_owned()),
            Some(mut n) => {
                let ghost before = n@;
                let known: bool = n.pending.contains(&req_id);
                assert(before.pending.dom() =~= n.pending@.dom());
                let x = n.respond(app, req_id.as_str(), allow, remember, now);
                let ghost (after, id, outcome) = (n@, req_id@, x);
                *negotiator = Some(n);
                let end = wait_end(&x.result);
                let response: CtrlResponse = match &x.result {
                    Ok(Some(g)) => CtrlResponse::ok(
                        CtrlPayload::Answered(
                            GrantResponseView {
                                stream_id: Some(g.view.stream_id.clone()),
                                pin: Some(g.view.pin.clone()),
                                expires_at: Some(g.view.expires_at),
                                trusted: g.trusted,
                                denied: false,
                            },
                        ),
                    ),
                    Ok(None) => CtrlResponse::ok(
                        CtrlPayload::Answered(
                            GrantResponseView {
                                stream_id: None,
                                pin: None,
                                expires_at: None,
                                trusted: false,
                                denied: true,
                            },
                        ),
                    ),
                    Err(t) => CtrlResponse::err(t.clone()),
                };
                let effect: Effect = if known {
                    Effect::Answer { req_id, end, share: x.share }
                } else {
                    Effect::Nothing
                };
                let r = CtrlStep::Reply { response, effect };
                assert(user_answered(
                    before,
                    after,
                    k0,
                    app@,
                    id,
                    allow,
                    remember,
                    now,
                    r,
                    outcome,
                ));
                assert(answer_taken(before, after, k0, app@, id, allow, remember, now, r));
                r
            },
        },
        CtrlRequest::EndpointPublish { endpoint_id, visibility, delivery, transports, codecs } => {
            let p = app.publish_endpoint(
                endpoint_id,
                visibility,
                delivery,
                transports,
                codecs,
                now,
            );
            let ghost outcome = p;
            assert(announced(
                k0,
                app@,
                endpoint_id,
                visibility@,
                delivery,
                announced_transports(k0.registry, endpoint_id, transports),
                announced_codecs(codecs),
                now,
                outcome,
            ));
            match p {
                Ok(x) => CtrlStep::Reply {
                    response: CtrlResponse::ok(CtrlPayload::Manifest(x.manifest)),
                    effect: Effect::Announce(x.action),
                },
                Err(e) => refused(&e),
            }
        },
        CtrlRequest::EndpointPublishFile { offer, visibility, delivery } => {
            let p = app.publish_file_endpoint(&offer, visibility, delivery, now);
            match p {
                Ok(x) => {
                    let ghost m = x.manifest;
                    assert(file_outcome(
                        k0.registry,
                        app@.registry,
                        &offer,
                        visibility@,
                        delivery,
                        now,
                        Ok(m),
                    ));
                    let endpoint_id = EndpointId::new(x.manifest.kind, x.manifest.endpoint_id);
                    let size: u64 = match app.file_source(endpoint_id) {
                        Some(f) => f.size,
                        None => 0,
                    };
                    CtrlStep::Reply {
                        response: CtrlResponse::ok(
                            CtrlPayload::FilePublished(
                                FilePublishedView {
                                    endpoint_id,
                                    name: x.manifest.name,
                                    size,
                                    delivery: x.manifest.delivery,
                                },
                            ),
                        ),
                        effect: Effect::Announce(x.action),
                    }
                },
                Err(e) => {
                    assert(file_outcome(
                        k0.registry,
                        app@.registry,
                        &offer,
                        visibility@,
                        delivery,
                        now,
                        Err(e),
                    ));
                    refused(&e)
                },
            }
        },
        CtrlRequest::EndpointUnpublish { endpoint_id } => match EndpointId::parse(
            endpoint_id.as_str(),
        ) {
            None => refused_with(join2("非法端点标识: ", endpoint_id.as_str())),
            Some(id) => {
                let u = app.unpublish_endpoint(id, now);
                let ghost outcome = u;
                assert(unpublished(k0, app@, id, now, outcome));
                match u.result {
                    Ok(action) => CtrlStep::Reply {
                        response: CtrlResponse::ok(CtrlPayload::Unpublished(id)),
                        effect: Effect::Withdraw { action: Some(action), engine: u.engine },
                    },
                    Err(e) => CtrlStep::Reply {
                        response: CtrlResponse::err(e.to_user_string()),
                        effect: Effect::Withdraw { action: None, engine: u.engine },
                    },
                }
            },
        },
        CtrlRequest::EndpointList => answered(CtrlPayload::Endpoints(app.endpoint_catalog())),
        CtrlRequest::CreateSession { title, sinks } => {
            let prefs = SessionPrefs {
                profile: ReliabilityProfile::Lossy,
                preferred_transport: None,
                access_code: None,
                title,
            };
            let s = create_session(&mut app.control, &sinks, &prefs);
            assert(app@ =~= KernelModel { control: app@.control, ..k0 });
            let ghost outcome = s;
            assert(session_created(&k0.control, &app@.control, texts(sinks@), &prefs, outcome));
            match s {
                Ok(x) => answered(
                    CtrlPayload::SessionCreated { session_id: x.id, title: x.title },
                ),
                Err(e) => refused(&e),
            }
        },
        CtrlRequest::Authorize { session_id, access_code } => {
            let code: Option<&str> = match &access_code {
                Some(c) => Some(c.as_str()),
                None => None,
            };
            assert(opt_text(code) == opt_view(access_code));
            let x = app.control.authorize(session_id.as_str(), code);
            assert(app@ =~= KernelModel { control: app@.control, ..k0 });
            let ghost outcome = x;
            assert(code_given(
                &k0.control,
                &app@.control,
                session_id@,
                opt_view(access_code),
                outcome,
            ));
            match x {
                Ok(()) => answered(CtrlPayload::Authorized { session_id }),
                Err(e) => refused(&e),
            }
        },
        CtrlRequest::Teardown { session_id } => {
            let x = app.control.teardown(session_id.as_str());
            assert(app@ =~= KernelModel { control: app@.control, ..k0 });
            let ghost outcome = x;
            assert(session_removed(&k0.control, &app@.control, session_id@, outcome));
            match x {
                Ok(()) => answered(CtrlPayload::TornDown { session_id }),
                Err(e) => refused(&e),
            }
        },
        CtrlRequest::StartStream { config, relay_url } => {
            let mut cfg = config;
            match app.prepare_stream(&mut cfg, relay_url) {
                Ok(push_url) => CtrlStep::StartEngine { config: cfg, push_url },
                Err(e) => {
                    proof {
                        if k0.backend is Some {
                            assert(session_prepared(k0, app@, &config, &cfg, Err(e)));
                        }
                    }
                    refused(&e)
                },
            }
        },
        CtrlRequest::ShareToken { session_id, ttl_secs } => {
            let mut media: Vec<MediaKind> = Vec::new();
            media.push(MediaKind::Mic);
            assert(media@ =~= seq![MediaKind::Mic]);
            match app.control.create_share_token(session_id.as_str(), media, ttl_secs, now) {
                Ok(token) => {
                    assert(app@ =~= KernelModel { control: app@.control, ..k0 });
                    answered(
                        CtrlPayload::Token(
                            IssuedShareTokenView {
                                token: token.to_token_string(),
                                stream_id: token.stream_id,
                                pin: token.pin,
                                expires_at: token.expires_at,
                                media: token.media,
                            },
                        ),
                    )
                },
                Err(e) => {
                    assert(app@ =~= KernelModel { control: app@.control, ..k0 });
                    refused(&e)
                },
            }
        },
        CtrlRequest::StopStream => {
            let engines = app.stop_stream();
            CtrlStep::Reply {
                response: CtrlResponse::ok(CtrlPayload::Stopped),
                effect: Effect::StopEngines(engines),
            }
        },
        CtrlRequest::ListSessions => answered(CtrlPayload::Sessions(list_sessions(app))),
        CtrlRequest::Status => answered(
            CtrlPayload::Status(status_view(app, version, uptime_secs)),
        ),
    }
}

/// Answers a request for a push once the engine runs, or failed. A second push of the same stream is
/// refused, and the engine that was started is to be stopped.
pub fn push_reply<P: AuthPolicy, D: DataPlaneBackend>(
    app: &mut Kernel<P, D>,
    config: &StreamConfig,
    engine: Result<Option<u16>, String>,
    now: u64,
) -> (r: CtrlResponse)
    requires
        old(app).wf(),
    ensures
        final(app).wf(),
        match engine {
            Err(t) => final(app)@ == old(app)@ && r.says(t@),
            Ok(port) => if old(app)@.engines.dom().contains(config.stream_id@) {
                final(app)@ == old(app)@ && r.says("该流已在推流中"@)
            } else {
                let relay_port = crate::kernel::streams::effective_port(port, old(app)@.anchor);
                &&& r matches CtrlResponse::Done { payload } && (payload matches
                    CtrlPayload::Started(s) && s.relay_port == relay_port && s.stream_id@
                    == config.stream_id@)
                &&& final(app)@ == (KernelModel {
                    engines: old(app)@.engines.insert(
                        config.stream_id@,
                        RunningModel {
                            relay_port,
                            title: config.title@,
                            stream_id: config.stream_id@,
                            started_at: now,
                        },
                    ),
                    ..old(app)@
                })
            },
        },
{
    match engine {
        Err(t) => CtrlResponse::err(t),
        Ok(port) => match app.complete_stream(config, port, now) {
            Ok(s) => CtrlResponse::ok(CtrlPayload::Started(s)),
            Err(e) => CtrlResponse::err(e.to_user_string()),
        },
    }
}

/// What a client makes of a message of a node.
pub enum CtrlMessage {
    /// The request was carried out.
    Done,
    /// The request failed, with this text.
    Failed(String),
    /// The message tells of something that happened.
    Event,
}

/// Tells answers from events: an answer has a tag, `ok` or `err`.
pub fn classify(tag: Option<&str>, message: Option<&str>) -> (r: CtrlMessage)
    ensures
        classified(opt_text(tag), opt_text(message), r),
{
    match tag {
        None => CtrlMessage::Event,
        Some(t) => {
            proof {
                reveal_strlit("ok");
                reveal_strlit("err");
            }
            if same(t, "ok") {
                CtrlMessage::Done
            } else if same(t, "err") {
                match message {
                    Some(m) => CtrlMessage::Failed(m.to_owned()),
                    None => CtrlMessage::Failed("未知错误".to_owned()),
                }
            } else {
                CtrlMessage::Event
            }
        },
    }
}

/// What a text says as a JSON object about one of its members: whether there is such a member, and
/// its characters if it is a string. For a text that is no JSON, the words of the parser.
pub uninterp spec fn json_member(text: Seq<char>, key: Seq<char>) -> Result<
    (bool, Option<Seq<char>>),
    Seq<char>,
>;

/// The characters of a member.
pub open spec fn member_view(r: Result<(bool, Option<String>), String>) -> Result<
    (bool, Option<Seq<char>>),
    Seq<char>,
> {
    match r {
        Ok(m) => Ok((m.0, opt_view(m.1))),
        Err(e) => Err(e@),
    }
}

/// Looks up a member of the JSON object in a text, with `serde_json::from_str`. The result is
/// trusted to depend on the text and the key alone; a text that holds another JSON value has no
/// members.
#[verifier::external_body]
fn look_up(text: &str, key: &str) -> (r: Result<(bool, Option<String>), String>)
    ensures
        member_view(r) == json_member(text@, key@),
{
    match serde_json::from_str::<serde_json::Value>(text) {
        Ok(v) => {
            let member = v.get(key);
            Ok((member.is_some(), member.and_then(|m| m.as_str()).map(|m| m.to_owned())))
        },
        Err(e) => Err(e.to_string()),
    }
}

/// What a message with the given tag and text is.
pub open spec fn classified(
    tag: Option<Seq<char>>,
    message: Option<Seq<char>>,
    r: CtrlMessage,
) -> bool {
    match tag {
        Some(t) => if t == "ok"@ {
            r is Done
        } else if t == "err"@ {
            r matches CtrlMessage::Failed(m) && m@ == (match message {
                Some(x) => x,
                None => "未知错误"@,
            })
        } else {
            r is Event
        },
        None => r is Event,
    }
}

fn as_str_opt(s: &Option<String>) -> (r: Option<&str>)
    ensures
        opt_text(r) == opt_view(*s),
{
    match s {
        Some(t) => Some(t.as_str()),
        None => None,
    }
}

/// Reads a message of a node: its tag is the member `rsp`, the text of an error the member
/// `message`. One that is no JSON is an error.
pub fn read_message(text: &str) -> (r: Result<CtrlMessage, Error>)
    ensures
        match json_member(text@, "rsp"@) {
            Err(e) => r matches Err(Error::Internal(t)) && t@ == e,
            Ok(tag) => match json_member(text@, "message"@) {
                Err(e) => r matches Err(Error::Internal(t)) && t@ == e,
                Ok(message) => r matches Ok(m) && classified(tag.1, message.1, m),
            },
        },
{
    let tag: Option<String> = match look_up(text, "rsp") {
        Ok(m) => m.1,
        Err(e) => {
            return Err(Error::Internal(e));
        },
    };
    let message: Option<String> = match look_up(text, "message") {
        Ok(m) => m.1,
        Err(e) => {
            return Err(Error::Internal(e));
        },
    };
    Ok(classify(as_str_opt(&tag), as_str_opt(&message)))
}

/// Whether a message of a node tells of something that happened: it has no tag at all.
pub fn is_event(text: &str) -> (r: Result<bool, Error>)
    ensures
        match json_member(text@, "rsp"@) {
            Err(e) => r matches Err(Error::Internal(t)) && t@ == e,
            Ok(tag) => r matches Ok(b) && b == !tag.0,
        },
{
    match look_up(text, "rsp") {
        Ok(m) => Ok(!m.0),
        Err(e) => Err(Error::Internal(e)),
    }
}

/// A session that is created on request is there: the answer names it with the title that was asked
/// for, and the list of sessions shows it afterwards, with this node as its source and the sinks
/// that were asked for, open to everybody.
pub proof fn law_created_session_is_listed<P: AuthPolicy, D: DataPlaneBackend>(
    app: &mut Kernel<P, D>,
    n: &mut Option<ShareNegotiator>,
    title: String,
    sinks: Vec<String>,
    version: &str,
    uptime_secs: u64,
    now: u64,
    r: CtrlStep,
    app2: &mut Kernel<P, D>,
    n2: &mut Option<ShareNegotiator>,
    listed: CtrlStep,
) -> (i: int)
    requires
        call_ensures(
            handle_request::<P, D>,
            (app, n, CtrlRequest::CreateSession { title, sinks }, version, uptime_secs, now),
            r,
        ),
        sinks@.len() > 0,
        old(app).control.data_plane is None,
        *old(app2) == *final(app),
        call_ensures(
            handle_request::<P, D>,
            (app2, n2, CtrlRequest::ListSessions, version, uptime_secs, now),
            listed,
        ),
    ensures
        listed matches CtrlStep::Reply { response: CtrlResponse::Done { payload: CtrlPayload::Sessions(v) }, effect }
            && 0 <= i < v@.len() && (r matches CtrlStep::Reply {
            response: CtrlResponse::Done { payload: CtrlPayload::SessionCreated { session_id, title: t } },
            effect: e,
        } && t@ == title@ && v@[i].session_id@ == session_id@ && v@[i].source@ == "local"@ && texts(
            v@[i].sinks@,
        ) == texts(sinks@) && !v@[i].requires_pin),
{
    let c0 = &old(app).control;
    let id = "sess-"@ + hex(c0.next_id as nat);
    assert(final(app)@.control.sessions@.dom().contains(id));
    let v = listed->response->payload->Sessions_0;
    choose|i: int| 0 <= i < v@.len() && (#[trigger] v@[i]).session_id@ == id
}

/// Without sinks no session is created.
pub proof fn law_session_needs_sinks<P: AuthPolicy, D: DataPlaneBackend>(
    app: &mut Kernel<P, D>,
    n: &mut Option<ShareNegotiator>,
    title: String,
    sinks: Vec<String>,
    version: &str,
    uptime_secs: u64,
    now: u64,
    r: CtrlStep,
)
    requires
        call_ensures(
            handle_request::<P, D>,
            (app, n, CtrlRequest::CreateSession { title, sinks }, version, uptime_secs, now),
            r,
        ),
        sinks@.len() == 0,
    ensures
        r matches CtrlStep::Reply { response, effect } && response is Failed,
        final(app).control.sessions@ == old(app).control.sessions@,
{
    assert(texts(sinks@).len() == 0);
}

/// A session without an access code is taken down on request; afterwards it is no longer there, and
/// neither is its token. A request for a session that is not there fails.
pub proof fn law_torn_down_session_is_gone<P: AuthPolicy, D: DataPlaneBackend>(
    app: &mut Kernel<P, D>,
    n: &mut Option<ShareNegotiator>,
    session_id: String,
    version: &str,
    uptime_secs: u64,
    now: u64,
    r: CtrlStep,
)
    requires
        call_ensures(
            handle_request::<P, D>,
            (app, n, CtrlRequest::Teardown { session_id }, version, uptime_secs, now),
            r,
        ),
        old(app).control.data_plane is None,
    ensures
        ({
            let before = old(app).control.sessions@;
            let after = final(app).control.sessions@;
            &&& before.dom().contains(session_id@) && !before[session_id@].requires_pin ==> (
            r matches CtrlStep::Reply {
                response: CtrlResponse::Done { payload: CtrlPayload::TornDown { session_id: id } },
                effect,
            } && id@ == session_id@) && after == before.remove(session_id@) && !final(app).control.share_tokens@.dom().contains(session_id@)
            &&& !before.dom().contains(session_id@) ==> (r matches CtrlStep::Reply {
                response,
                effect,
            } && response is Failed) && after == before
            &&& before.dom().contains(session_id@) && before[session_id@].requires_pin
                && !before[session_id@].authorized ==> (r matches CtrlStep::Reply {
                response,
                effect,
            } && response is Failed) && after == before
        }),
{
}

/// A token that is issued on request is for the session that was named, lets a microphone in, and
/// ends when its time is over; the node keeps it under that session, with the pin that was told.
pub proof fn law_issued_token_is_kept<P: AuthPolicy, D: DataPlaneBackend>(
    app: &mut Kernel<P, D>,
    n: &mut Option<ShareNegotiator>,
    session_id: String,
    ttl_secs: u64,
    version: &str,
    uptime_secs: u64,
    now: u64,
    r: CtrlStep,
)
    requires
        call_ensures(
            handle_request::<P, D>,
            (
                app,
                n,
                CtrlRequest::ShareToken { session_id, ttl_secs },
                version,
                uptime_secs,
                now,
            ),
            r,
        ),
        old(app).control.sessions@.dom().contains(session_id@),
        now + ttl_secs <= u64::MAX,
    ensures
        r matches CtrlStep::Reply {
            response: CtrlResponse::Done { payload: CtrlPayload::Token(v) },
            effect,
        } && ({
            let kept = final(app).control.share_tokens@;
            &&& v.stream_id@ == session_id@
            &&& v.expires_at == now + ttl_secs
            &&& v.media@ == seq![MediaKind::Mic]
            &&& kept.dom().contains(session_id@)
            &&& kept[session_id@].pin == v.pin@
            &&& kept[session_id@].expires_at == now + ttl_secs
            &&& kept[session_id@].media == seq![MediaKind::Mic]
            &&& kept[session_id@].stream_id == session_id@
        }),
        final(app).control.sessions@ == old(app).control.sessions@,
{
}

/// A token is issued for sessions that are there, and for no other.
pub proof fn law_token_needs_a_session<P: AuthPolicy, D: DataPlaneBackend>(
    app: &mut Kernel<P, D>,
    n: &mut Option<ShareNegotiator>,
    session_id: String,
    ttl_secs: u64,
    version: &str,
    uptime_secs: u64,
    now: u64,
    r: CtrlStep,
)
    requires
        call_ensures(
            handle_request::<P, D>,
            (
                app,
                n,
                CtrlRequest::ShareToken { session_id, ttl_secs },
                version,
                uptime_secs,
                now,
            ),
            r,
        ),
        !old(app).control.sessions@.dom().contains(session_id@),
    ensures
        r matches CtrlStep::Reply { response, effect } && response is Failed,
        final(app).control.share_tokens@ == old(app).control.share_tokens@,
{
}

/// A push that is asked for goes to the address that is given, else to the relay of this node. What
/// is captured is what was asked for. Without a data plane it keeps its stream id.
pub proof fn law_push_starts_as_asked<P: AuthPolicy, D: DataPlaneBackend>(
    app: &mut Kernel<P, D>,
    n: &mut Option<ShareNegotiator>,
    config: StreamConfig,
    relay_url: Option<String>,
    version: &str,
    uptime_secs: u64,
    now: u64,
    r: CtrlStep,
    auto: String,
)
    requires
        call_ensures(
            handle_request::<P, D>,
            (
                app,
                n,
                CtrlRequest::StartStream { config, relay_url },
                version,
                uptime_secs,
                now,
            ),
            r,
        ),
        old(app).backend is Some,
        old(app).control.data_plane is None,
        old(app).anchor matches Some(a) ==> call_ensures(
            auto_push_url,
            (a.port, a.srt_port, a.quic_port, config.video is Some),
            auto,
        ),
    ensures
        r matches CtrlStep::StartEngine { config: c, push_url } && ({
            &&& c.stream_id@ == config.stream_id@
            &&& c.title@ == config.title@
            &&& c.video == config.video
            &&& c.audio == config.audio
            &&& c.quality == config.quality
            &&& c.duration_secs == config.duration_secs
            &&& opt_view(c.share_token) == opt_view(config.share_token)
            &&& relay_url matches Some(u) ==> (push_url matches Some(x) && x@ == u@)
            &&& relay_url is None && old(app).anchor is Some ==> (push_url matches Some(x) && x@
                == auto@)
            &&& relay_url is None && old(app).anchor is None ==> push_url is None
        }),
        final(app)@ == old(app)@,
{
}

/// A push that runs is shown: after it was answered as started, the status of the node says that it
/// streams. Only one push of a stream runs.
pub proof fn law_running_push_is_shown<P: AuthPolicy, D: DataPlaneBackend>(
    app: &mut Kernel<P, D>,
    config: &StreamConfig,
    port: Option<u16>,
    now: u64,
    r: CtrlResponse,
    app2: &mut Kernel<P, D>,
    later: u64,
    again: CtrlResponse,
)
    requires
        call_ensures(
            push_reply::<P, D>,
            (app, config, Ok::<Option<u16>, String>(port), now),
            r,
        ),
        !old(app)@.engines.dom().contains(config.stream_id@),
        *old(app2) == *final(app),
        call_ensures(
            push_reply::<P, D>,
            (app2, config, Ok::<Option<u16>, String>(port), later),
            again,
        ),
    ensures
        r matches CtrlResponse::Done { payload: CtrlPayload::Started(s) } && s.stream_id@
            == config.stream_id@ && (port matches Some(p) ==> s.relay_port == p) && (port is None
            && old(app).anchor is Some ==> s.relay_port == old(app).anchor->0.port),
        final(app)@.engines.dom() == old(app)@.engines.dom().insert(config.stream_id@),
        final(app)@.engines[config.stream_id@].title == config.title@,
        final(app)@.engines[config.stream_id@].started_at == now,
        again is Failed,
        final(app2)@ == final(app)@,
{
}

/// When the pushes are stopped, every one that ran is to be stopped, and none is left.
pub proof fn law_all_pushes_are_stopped<P: AuthPolicy, D: DataPlaneBackend>(
    app: &mut Kernel<P, D>,
    n: &mut Option<ShareNegotiator>,
    version: &str,
    uptime_secs: u64,
    now: u64,
    r: CtrlStep,
    id: Seq<char>,
) -> (i: int)
    requires
        old(app).wf(),
        call_ensures(
            handle_request::<P, D>,
            (app, n, CtrlRequest::StopStream, version, uptime_secs, now),
            r,
        ),
        old(app)@.engines.dom().contains(id),
    ensures
        r matches CtrlStep::Reply { response, effect: Effect::StopEngines(v) } && 0 <= i < v@.len()
            && v@[i].stream_id@ == id,
        final(app)@.engines.dom() == Set::<Seq<char>>::empty(),
{
    let v = r->effect->StopEngines_0;
    let running = old(app)@.engines.dom();
    old(app).engines.lemma_keys();
    assert(running =~= old(app).engines@.dom());
    let ids = v@.map_values(|x: RunningStream| x.stream_id@);
    assert(ids.no_duplicates()) by {
        assert forall|a: int, b: int|
            0 <= a < ids.len() && 0 <= b < ids.len() && a != b implies ids[a] != ids[b] by {
            if a < b {
                assert(v@[a]@.stream_id != v@[b]@.stream_id);
            } else {
                assert(v@[b]@.stream_id != v@[a]@.stream_id);
            }
        }
    }
    ids.unique_seq_to_set();
    assert(ids.to_set().subset_of(running)) by {
        assert forall|x: Seq<char>| ids.to_set().contains(x) implies running.contains(x) by {
            let a = choose|a: int| 0 <= a < ids.len() && ids[a] == x;
            assert(running.contains(v@[a]@.stream_id));
        }
    }
    vstd::set_lib::lemma_subset_equality(ids.to_set(), running);
    assert(ids.to_set().contains(id));
    let i = choose|i: int| 0 <= i < ids.len() && ids[i] == id;
    assert(v@[i].stream_id@ == id);
    i
}

/// The status tells how the node is doing: its version and platform, how long it runs, the ports of
/// its relay, whether it streams and what, and how many sessions there are.
pub proof fn law_status_tells_how_the_node_is_doing<P: AuthPolicy, D: DataPlaneBackend>(
    app: &mut Kernel<P, D>,
    n: &mut Option<ShareNegotiator>,
    version: &str,
    uptime_secs: u64,
    now: u64,
    r: CtrlStep,
)
    requires
        call_ensures(
            handle_request::<P, D>,
            (app, n, CtrlRequest::Status, version, uptime_secs, now),
            r,
        ),
    ensures
        r matches CtrlStep::Reply {
            response: CtrlResponse::Done { payload: CtrlPayload::Status(v) },
            effect,
        } && ({
            &&& v.version@ == version@
            &&& v.uptime_secs == uptime_secs
            &&& v.sessions == old(app).control.sessions@.dom().len()
            &&& old(app).anchor matches Some(a) ==> v.relay_port == a.port && v.srt_port
                == a.srt_port && v.quic_port == a.quic_port
            &&& v.streaming <==> exists|s: Seq<char>| old(app)@.engines.dom().contains(s)
            &&& v.streaming ==> (v.stream_id matches Some(s) && old(app)@.engines.dom().contains(
                s@,
            ) && (v.stream_title matches Some(t) && t@ == old(app)@.engines[s@].title)
                && v.stream_started_at == Some(old(app)@.engines[s@].started_at))
            &&& !v.streaming ==> v.stream_id is None && v.stream_title is None
                && v.stream_started_at is None
        }),
        final(app)@ == old(app)@,
{
    let v = r->response->payload->Status_0;
    let engines = old(app)@.engines;
    if engines == Map::<Seq<char>, RunningModel>::empty() {
        assert forall|s: Seq<char>| !engines.dom().contains(s) by {}
    } else if forall|s: Seq<char>| !engines.dom().contains(s) {
        assert(engines =~= Map::<Seq<char>, RunningModel>::empty());
    }
}

/// An endpoint that is announced on request is answered as it is announced: under its own id, with
/// the visibility and the direction that were asked for. Its manifest says the same afterwards.
pub proof fn law_announced_endpoint_is_open<P: AuthPolicy, D: DataPlaneBackend>(
    app: &mut Kernel<P, D>,
    n: &mut Option<ShareNegotiator>,
    endpoint_id: EndpointId,
    visibility: Visibility,
    delivery: Delivery,
    transports: Option<Vec<TransportPreference>>,
    codecs: Option<Vec<CodecId>>,
    version: &str,
    uptime_secs: u64,
    now: u64,
    r: CtrlStep,
    before: EndpointManifest,
    after: Option<EndpointManifest>,
)
    requires
        old(app).wf(),
        call_ensures(
            handle_request::<P, D>,
            (
                app,
                n,
                CtrlRequest::EndpointPublish {
                    endpoint_id,
                    visibility,
                    delivery,
                    transports,
                    codecs,
                },
                version,
                uptime_secs,
                now,
            ),
            r,
        ),
        call_ensures(Kernel::<P, D>::endpoint_manifest, (&*old(app), endpoint_id), Some(before)),
        call_ensures(Kernel::<P, D>::endpoint_manifest, (&*final(app), endpoint_id), after),
        before.available,
        !before.published,
    ensures
        r matches CtrlStep::Reply {
            response: CtrlResponse::Done { payload: CtrlPayload::Manifest(m) },
            effect,
        } && ({
            &&& m.kind == endpoint_id.kind
            &&& m.endpoint_id == endpoint_id.id
            &&& m.published
            &&& m.name@ == before.name@
            &&& m.visibility@ == visibility@
            &&& m.delivery == delivery
            &&& transports matches Some(v) ==> m.transports@ == v@
            &&& codecs matches Some(v) ==> m.codecs@ == v@
            &&& effect is Announce
            &&& after matches Some(x) && x@ == m@
        }),
{
    old(app).registry.lemma_consistent();
}

/// An endpoint that is announced already, or cannot be offered, is not announced again.
pub proof fn law_endpoint_is_announced_once<P: AuthPolicy, D: DataPlaneBackend>(
    app: &mut Kernel<P, D>,
    n: &mut Option<ShareNegotiator>,
    endpoint_id: EndpointId,
    visibility: Visibility,
    delivery: Delivery,
    transports: Option<Vec<TransportPreference>>,
    codecs: Option<Vec<CodecId>>,
    version: &str,
    uptime_secs: u64,
    now: u64,
    r: CtrlStep,
    before: Option<EndpointManifest>,
)
    requires
        call_ensures(
            handle_request::<P, D>,
            (
                app,
                n,
                CtrlRequest::EndpointPublish {
                    endpoint_id,
                    visibility,
                    delivery,
                    transports,
                    codecs,
                },
                version,
                uptime_secs,
                now,
            ),
            r,
        ),
        call_ensures(Kernel::<P, D>::endpoint_manifest, (&*old(app), endpoint_id), before),
        before matches Some(m) ==> m.published || !m.available,
    ensures
        r matches CtrlStep::Reply { response, effect } && response is Failed && effect is Nothing,
        final(app)@ == old(app)@,
{
}

/// The endpoints that are listed on request are those of this node, announced or not.
pub proof fn law_own_endpoints_are_listed<P: AuthPolicy, D: DataPlaneBackend>(
    app: &mut Kernel<P, D>,
    n: &mut Option<ShareNegotiator>,
    version: &str,
    uptime_secs: u64,
    now: u64,
    r: CtrlStep,
    id: EndpointId,
    m: EndpointManifest,
) -> (i: int)
    requires
        call_ensures(
            handle_request::<P, D>,
            (app, n, CtrlRequest::EndpointList, version, uptime_secs, now),
            r,
        ),
        call_ensures(Kernel::<P, D>::endpoint_manifest, (&*old(app), id), Some(m)),
    ensures
        r matches CtrlStep::Reply {
            response: CtrlResponse::Done { payload: CtrlPayload::Endpoints(v) },
            effect,
        } && 0 <= i < v@.len() && v@[i]@ == m@,
        final(app)@ == old(app)@,
{
    let v = r->response->payload->Endpoints_0;
    let mounts = old(app)@.registry.mounts;
    let own = Some(old(app)@.registry.self_node);
    assert(manifests_listed(mounts, own, false, v@));
    let keys = choose|keys: Seq<RefModel>|
        {
            &&& #[trigger] lists(mounts, own, false, keys)
            &&& v@.len() == keys.len()
            &&& forall|i: int| 0 <= i < v@.len() ==> (#[trigger] v@[i])@ == mounts[keys[i]].manifest()
        };
    let key = old(app)@.registry.own(id);
    assert(keys.contains(key));
    let i = choose|i: int| 0 <= i < keys.len() && keys[i] == key;
    assert(v@[i]@ == m@);
    i
}

/// What the user answers to a waiting request reaches both: whoever answers sees what was granted,
/// or that it was refused, and the device that waits is told the same.
pub proof fn law_answer_reaches_both<P: AuthPolicy, D: DataPlaneBackend>(
    app: &mut Kernel<P, D>,
    n: &mut Option<ShareNegotiator>,
    req_id: String,
    allow: bool,
    remember: bool,
    version: &str,
    uptime_secs: u64,
    now: u64,
    r: CtrlStep,
)
    requires
        call_ensures(
            handle_request::<P, D>,
            (
                app,
                n,
                CtrlRequest::NegotiatorRespond { req_id, allow, remember },
                version,
                uptime_secs,
                now,
            ),
            r,
        ),
        *old(n) matches Some(x) && x@.pending.dom().contains(req_id@),
    ensures
        r matches CtrlStep::Reply { response, effect: Effect::Answer { req_id: id, end, share } }
            && ({
            &&& id@ == req_id@
            &&& !allow ==> end is Refused && share is None && (response matches CtrlResponse::Done {
                payload: CtrlPayload::Answered(v),
            } && v.denied && v.stream_id is None)
            &&& allow ==> !(end is Refused) && !(end is TimedOut)
            &&& end matches WaitEnd::Granted(g) ==> (response matches CtrlResponse::Done {
                payload: CtrlPayload::Answered(v),
            } && !v.denied && v.trusted == g.trusted && (v.stream_id matches Some(s) && s@
                == g.view.stream_id@) && (v.pin matches Some(p) && p@ == g.view.pin@)
                && v.expires_at == Some(g.view.expires_at))
            &&& end is Lost ==> response is Failed
        }),
        *final(n) matches Some(x) && !x@.pending.dom().contains(req_id@),
{
    let n0 = old(n)->0@;
    let n1 = final(n)->0@;
    assert(answer_taken(n0, n1, old(app)@, final(app)@, req_id@, allow, remember, now, r));
    let x = choose|x: Responded| #[trigger]
        user_answered(n0, n1, old(app)@, final(app)@, req_id@, allow, remember, now, r, x);
    assert(n1.pending == n0.pending.remove(req_id@));
}

/// An answer is told from an event by its tag: one that bears `ok` is a success, one that bears
/// `err` a failure with its text, and what bears none tells of something that happened.
pub proof fn law_tag_tells_the_message(
    tag: Option<&str>,
    message: &str,
    r: CtrlMessage,
)
    requires
        call_ensures(classify, (tag, Some(message)), r),
    ensures
        tag is None ==> r is Event,
        tag matches Some(t) && t@ == "ok"@ ==> r is Done,
        tag matches Some(t) && t@ == "err"@ ==> (r matches CtrlMessage::Failed(m) && m@ == message@),
{
    reveal_strlit("ok");
    reveal_strlit("err");
    if tag is Some && tag->0@ == "err"@ {
        assert("err"@.len() == 3 && "ok"@.len() == 2);
    }
}

/// A session opens to whoever gives the right code on request: the answer names it, and the session
/// is authorised from then on. With another code the request fails and nothing changes, and so it
/// does for a session that is not there.
pub proof fn law_right_code_opens_the_session<P: AuthPolicy, D: DataPlaneBackend>(
    app: &mut Kernel<P, D>,
    n: &mut Option<ShareNegotiator>,
    session_id: String,
    access_code: Option<String>,
    version: &str,
    uptime_secs: u64,
    now: u64,
    r: CtrlStep,
    id: &str,
    code: Option<&str>,
    verdict: Result<(), crate::kernel::auth::AuthError>,
)
    requires
        id@ == session_id@,
        opt_text(code) == opt_view(access_code),
        call_ensures(
            handle_request::<P, D>,
            (
                app,
                n,
                CtrlRequest::Authorize { session_id, access_code },
                version,
                uptime_secs,
                now,
            ),
            r,
        ),
        call_ensures(<P as AuthPolicy>::authorize, (&old(app).control.auth, id, code), verdict),
    ensures
        ({
            let before = old(app).control.sessions@;
            let after = final(app).control.sessions@;
            &&& verdict is Ok && before.dom().contains(id@) ==> (r matches CtrlStep::Reply {
                response: CtrlResponse::Done { payload: CtrlPayload::Authorized { session_id: x } },
                effect,
            } && x@ == session_id@) && after.dom() == before.dom() && after[id@].authorized
                && after[id@].requires_pin == before[id@].requires_pin
            &&& verdict is Err || !before.dom().contains(id@) ==> (r matches CtrlStep::Reply {
                response,
                effect,
            } && response is Failed) && after == before
        }),
{
    let before = old(app).control.sessions@;
    let after = final(app).control.sessions@;
    if verdict is Ok && before.dom().contains(id@) {
        assert(after.dom() =~= before.dom());
    }
}

/// A file that is shared on request is an endpoint afterwards: the answer gives its name, its size
/// and how it is delivered, and under the endpoint it gives, the node finds the file again.
pub proof fn law_file_is_shared_on_request<P: AuthPolicy, D: DataPlaneBackend>(
    app: &mut Kernel<P, D>,
    n: &mut Option<ShareNegotiator>,
    offer: FileOffer,
    name: String,
    meta: FileMeta,
    visibility: Visibility,
    delivery: Delivery,
    version: &str,
    uptime_secs: u64,
    now: u64,
    r: CtrlStep,
    view: FilePublishedView,
    file: Option<FileSource>,
    later: Option<EndpointManifest>,
)
    requires
        call_ensures(
            handle_request::<P, D>,
            (
                app,
                n,
                CtrlRequest::EndpointPublishFile { offer, visibility, delivery },
                version,
                uptime_secs,
                now,
            ),
            r,
        ),
        offer.meta == Ok::<FileMeta, String>(meta),
        meta.is_file,
        offer.probe is Ok,
        offer.file_name == Some(name),
        r matches CtrlStep::Reply {
            response: CtrlResponse::Done { payload: CtrlPayload::FilePublished(v) },
            effect,
        } ==> view == v,
        call_ensures(Kernel::<P, D>::file_source, (&*final(app), view.endpoint_id), file),
        call_ensures(Kernel::<P, D>::endpoint_manifest, (&*final(app), view.endpoint_id), later),
    ensures
        r matches CtrlStep::Reply {
            response: CtrlResponse::Done { payload: CtrlPayload::FilePublished(v) },
            effect: Effect::Announce(_),
        } && ({
            &&& v.name@ == name@
            &&& v.size == meta.size
            &&& v.delivery == delivery
            &&& v.endpoint_id.kind is File
        }),
        file matches Some(f) && f.path@ == offer.path@ && f.name@ == name@ && f.size == meta.size,
        later matches Some(m) && m.published && m.visibility@ == visibility@,
{
    let pre = old(app)@.registry;
    let post = final(app)@.registry;
    let p = choose|p: Result<EndpointManifest, Error>|
        {
            &&& #[trigger] file_outcome(pre, post, &offer, visibility@, delivery, now, p)
            &&& match p {
                Ok(m) => r matches CtrlStep::Reply { response, effect } && (response matches
                    CtrlResponse::Done { payload } && (payload matches CtrlPayload::FilePublished(
                    v,
                ) && {
                    let key = post.own(m@.id);
                    &&& v.endpoint_id == m@.id
                    &&& v.name@ == m@.name
                    &&& v.delivery == m@.delivery
                    &&& v.size == (if post.files.dom().contains(key) {
                        post.files[key].size
                    } else {
                        0
                    })
                })) && effect is Announce,
                Err(e) => replies_error(r, e.text()),
            }
        };
    let k = choose|k: u32|
        #[trigger] first_free(pre.mounts, pre.self_node, pre.next_file, k) && file_shared(
            pre,
            post,
            &offer,
            k,
            meta.size,
            visibility@,
            delivery,
            now,
            p,
        );
}

/// An announcement is taken back on request: the answer names the endpoint, and the endpoint is no
/// longer announced. A request with a text that names no endpoint fails and changes nothing.
pub proof fn law_endpoint_is_withdrawn_on_request<P: AuthPolicy, D: DataPlaneBackend>(
    app: &mut Kernel<P, D>,
    n: &mut Option<ShareNegotiator>,
    endpoint_id: String,
    version: &str,
    uptime_secs: u64,
    now: u64,
    r: CtrlStep,
    named: &str,
    read: Option<EndpointId>,
    before: EndpointManifest,
    after: Option<EndpointManifest>,
)
    requires
        old(app).wf(),
        named@ == endpoint_id@,
        call_ensures(
            handle_request::<P, D>,
            (
                app,
                n,
                CtrlRequest::EndpointUnpublish { endpoint_id },
                version,
                uptime_secs,
                now,
            ),
            r,
        ),
        call_ensures(EndpointId::parse, (named,), read),
        read is Some ==> call_ensures(
            Kernel::<P, D>::endpoint_manifest,
            (&*old(app), read->0),
            Some(before),
        ) && call_ensures(Kernel::<P, D>::endpoint_manifest, (&*final(app), read->0), after),
    ensures
        read is Some && before.published ==> (r matches CtrlStep::Reply {
            response: CtrlResponse::Done { payload: CtrlPayload::Unpublished(id) },
            effect: Effect::Withdraw { action, engine },
        } && id == read->0 && action is Some) && (after matches Some(m) && !m.published && m.name@
            == before.name@),
        read is Some && !before.published ==> (r matches CtrlStep::Reply { response, effect }
            && response is Failed),
        read is None ==> (r matches CtrlStep::Reply { response, effect } && response is Failed
            && effect is Nothing) && final(app)@ == old(app)@,
{
    let pre = old(app)@;
    let post = final(app)@;
    if read is Some {
        let id = read->0;
        let u = choose|u: Unpublished|
            {
                &&& #[trigger] unpublished(pre, post, id, now, u)
                &&& r matches CtrlStep::Reply { response, effect } && (effect matches
                    Effect::Withdraw { action, engine } && engine == u.engine && match u.result {
                    Ok(a) => action == Some(a) && (response matches CtrlResponse::Done { payload }
                        && (payload matches CtrlPayload::Unpublished(x) && x == id)),
                    Err(e) => action is None && response.says(e.text()),
                })
            };
        let stopped = choose|x: KernelModel<P, D>|
            #[trigger] share_stopped(pre, x, id, now, u.engine) && withdrawn_after(
                x,
                post,
                id,
                now,
                u,
            );
        let key = pre.registry.own(id);
        assert(stopped.registry.mounts.dom().contains(key));
        assert(stopped.registry.mounts[key].published == before.published);
        assert(stopped.registry.mounts[key].name == before.name@);
    }
}

/// The requests that wait are shown on request, as many as there are; a node that lets nobody in has
/// none to show.
pub proof fn law_waiting_requests_are_shown_on_request<P: AuthPolicy, D: DataPlaneBackend>(
    app: &mut Kernel<P, D>,
    n: &mut Option<ShareNegotiator>,
    version: &str,
    uptime_secs: u64,
    now: u64,
    r: CtrlStep,
    i: int,
)
    requires
        call_ensures(
            handle_request::<P, D>,
            (app, n, CtrlRequest::NegotiatorPending, version, uptime_secs, now),
            r,
        ),
    ensures
        final(app)@ == old(app)@,
        *old(n) is None ==> (r matches CtrlStep::Reply { response, effect } && response is Failed),
        *old(n) is Some ==> (r matches CtrlStep::Reply {
            response: CtrlResponse::Done { payload: CtrlPayload::Pending(v) },
            effect: Effect::Nothing,
        } && v@.len() == (*old(n))->0@.pending.dom().len() && (0 <= i < v@.len() ==> ({
            let w = (*old(n))->0@.pending;
            &&& w.dom().contains(v@[i].id@)
            &&& v@[i].device_id@ == w[v@[i].id@].device_id
            &&& v@[i].device_name@ == w[v@[i].id@].device_name
        }))),
{
}

/// A message that has a tag is an answer, not an event: with the tag of success it is a success,
/// with the tag of failure it is a failure in the words of its message. What is no JSON is an error.
pub proof fn law_message_is_read_by_its_tag(
    text: &str,
    r: Result<CtrlMessage, Error>,
    event: Result<bool, Error>,
    tag: Seq<char>,
    message: Seq<char>,
)
    requires
        call_ensures(read_message, (text,), r),
        call_ensures(is_event, (text,), event),
        json_member(text@, "message"@) == Ok::<(bool, Option<Seq<char>>), Seq<char>>(
            (true, Some(message)),
        ),
    ensures
        json_member(text@, "rsp"@) == Ok::<(bool, Option<Seq<char>>), Seq<char>>((false, None))
            ==> event == Ok::<bool, Error>(true) && (r matches Ok(m) && m is Event),
        json_member(text@, "rsp"@) == Ok::<(bool, Option<Seq<char>>), Seq<char>>((true, Some(tag)))
            ==> event == Ok::<bool, Error>(false),
        json_member(text@, "rsp"@) == Ok::<(bool, Option<Seq<char>>), Seq<char>>((true, Some(tag)))
            && tag == "ok"@ ==> (r matches Ok(m) && m is Done),
        json_member(text@, "rsp"@) == Ok::<(bool, Option<Seq<char>>), Seq<char>>((true, Some(tag)))
            && tag == "err"@ ==> (r matches Ok(CtrlMessage::Failed(m)) && m@ == message),
        json_member(text@, "rsp"@) is Err ==> r is Err && event is Err,
{
    reveal_strlit("ok");
    reveal_strlit("err");
    assert("err"@.len() == 3 && "ok"@.len() == 2);
}

/// What is no request is answered with a failure that ends with the reason.
pub proof fn law_malformed_request_is_told_why(why: &str, r: CtrlResponse)
    requires
        call_ensures(CtrlResponse::malformed, (why,), r),
    ensures
        r matches CtrlResponse::Failed { message } && message@.len() > why@.len() && message@.skip(
            message@.len() - why@.len(),
        ) == why@,
{
    reveal_strlit("非法请求: ");
    let message = r->message;
    assert(message@.skip(message@.len() - why@.len()) =~= why@);
}

} // verus!
