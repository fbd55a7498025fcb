//! Answering requests for access.

use vstd::prelude::*;

use crate::channel::message::opt_view;
use crate::discovery::info::DiscoveryResp;
use crate::kernel::anchor::{can_be_found, tells_about};
use crate::kernel::auth::AuthPolicy;
use crate::kernel::data_plane::DataPlaneBackend;
use crate::kernel::endpoint::manifest::{
    clone_opt, EndpointDir, EndpointManifest, EndpointNode, ManifestModel,
};
use crate::kernel::endpoint::mounts::{lists, manifests_listed};
use crate::kernel::session_api::{kind_labels, kind_names};
use crate::kernel::share_service::shared;
use crate::kernel::{Kernel, KernelModel};
use crate::message::{
    clone_kinds, texts, Delivery, EndpointId, MediaKind, RefModel, Visibility, VisibilityModel,
};
use crate::negotiator::dto::{
    ApiError, GrantModel, PendingModel, PendingRequest, RelayAddr, ShareGrant, ShareRequest,
};
use crate::negotiator::grant::{
    compose_grant, grant_composed, granted_at_once, manifest_of, notify_subscribed,
    policy_decision, share_started, Decision, ShareStart,
};
use crate::negotiator::trust::{remembered, TrustStore, TrustedModel};
use crate::table::Table;
use crate::text::{dec, decimal, join2, join3, join_all, joined, lemma_numeral_injective};

verus! {

/// The port at which nodes negotiate access and answer who they are.
pub const DEFAULT_NEGOTIATOR_PORT: u16 = 18779;

/// How long a request waits for the user, in seconds.
pub const PENDING_TIMEOUT_SECS: u64 = 60;

/// Shows the user that a request waits.
pub trait NegotiatorUi {
    /// The line that is shown, if any.
    spec fn line(&self, req: PendingModel) -> Option<Seq<char>>;

    /// The line that is to be shown, if any.
    fn request_pending(&self, req: &PendingRequest) -> (r: Option<String>)
        ensures
            opt_view(r) == self.line(req@),
    ;
}

/// Shows nothing: requests wait until their time is over.
pub struct NoopUi;

impl NegotiatorUi for NoopUi {
    open spec fn line(&self, req: PendingModel) -> Option<Seq<char>> {
        None
    }

    fn request_pending(&self, req: &PendingRequest) -> (r: Option<String>) {
        None
    }
}

/// Shows how to answer a request from the command line.
pub struct CliUi;

impl NegotiatorUi for CliUi {
    open spec fn line(&self, req: PendingModel) -> Option<Seq<char>> {
        Some(
            "设备 "@ + req.device_name + "（"@ + req.device_id + "）请求接入（"@ + joined(
                req.media,
                ","@,
            ) + "），等待确认：stross ctrl negotiator-list / negotiator-respond "@ + req.id
                + " --allow"@,
        )
    }

    fn request_pending(&self, req: &PendingRequest) -> (r: Option<String>) {
        assert(req.media@.map_values(|s: String| s@) =~= texts(req.media@));
        let media: String = join_all(&req.media, ",");
        let a: String = join3("设备 ", req.device_name.as_str(), "（");
        let b: String = join3(a.as_str(), req.device_id.as_str(), "）请求接入（");
        let c: String = join3(
            b.as_str(),
            media.as_str(),
            "），等待确认：stross ctrl negotiator-list / negotiator-respond ",
        );
        Some(join3(c.as_str(), req.id.as_str(), " --allow"))
    }
}

/// A request that waits for the user, with all that is needed to grant it.
#[derive(Debug)]
pub struct PendingEntry {
    pub device_id: String,
    pub device_name: String,
    pub endpoint_id: Option<EndpointId>,
    pub strategy_id: Option<String>,
    pub delivery_mode: Option<Delivery>,
    pub relay_addr: Option<String>,
    pub share_token: Option<String>,
}

/// What a waiting request is, as a mathematical value.
pub struct WaitingModel {
    pub device_id: Seq<char>,
    pub device_name: Seq<char>,
    pub endpoint_id: Option<EndpointId>,
    pub strategy_id: Option<Seq<char>>,
    pub delivery_mode: Option<Delivery>,
    pub relay_addr: Option<Seq<char>>,
    pub share_token: Option<Seq<char>>,
}

impl View for PendingEntry {
    type V = WaitingModel;

    open spec fn view(&self) -> WaitingModel {
        WaitingModel {
            device_id: self.device_id@,
            device_name: self.device_name@,
            endpoint_id: self.endpoint_id,
            strategy_id: opt_view(self.strategy_id),
            delivery_mode: self.delivery_mode,
            relay_addr: opt_view(self.relay_addr),
            share_token: opt_view(self.share_token),
        }
    }
}

/// The models of the waiting requests.
pub open spec fn waiting_models(m: Map<Seq<char>, PendingEntry>) -> Map<Seq<char>, WaitingModel> {
    m.map_values(|e: PendingEntry| e@)
}

/// Answers requests for access.
pub struct ShareNegotiator {
    pub store: TrustStore,
    pub pending: Table<String, PendingEntry>,
    /// The port at which requests arrive.
    pub port: u16,
}

/// What a negotiator is, as a mathematical value.
#[verifier::ext_equal]
pub struct NegotiatorModel {
    pub trusted: Map<Seq<char>, TrustedModel>,
    pub pending: Map<Seq<char>, WaitingModel>,
    pub port: u16,
}

impl View for ShareNegotiator {
    type V = NegotiatorModel;

    open spec fn view(&self) -> NegotiatorModel {
        NegotiatorModel {
            trusted: self.store@,
            pending: waiting_models(self.pending@),
            port: self.port,
        }
    }
}

/// The body of an answer.
#[derive(Debug)]
pub enum ReplyBody {
    Grant(ShareGrant),
    Error(ApiError),
}

/// An answer: an HTTP status and a body.
#[derive(Debug)]
pub struct HttpReply {
    pub status: u16,
    pub body: ReplyBody,
}

/// How a request goes on.
pub enum RequestStep {
    /// It is answered; an endpoint may have to start sharing.
    Reply(HttpReply, Option<ShareStart>),
    /// It waits for the user, who is to be shown this.
    Wait(PendingRequest),
}

/// How waiting for the user ends.
pub enum WaitEnd {
    /// The user allowed the request.
    Granted(ShareGrant),
    /// The user refused it.
    Refused(String),
    /// The time is over.
    TimedOut,
    /// The answer got lost.
    Lost,
}

/// What an answer of the user comes to.
pub struct Responded {
    /// What was granted; `None` when the request was refused.
    pub result: Result<Option<ShareGrant>, String>,
    pub share: Option<ShareStart>,
}

/// Whether an answer reports an error.
pub open spec fn error_reply(r: HttpReply, status: u16, text: Seq<char>) -> bool {
    r.status == status && (r.body matches ReplyBody::Error(e) && e.error@ == text)
}

/// Whether an answer holds a grant.
pub open spec fn grant_reply(r: HttpReply, g: GrantModel) -> bool {
    r.status == 200 && (r.body matches ReplyBody::Grant(x) && x@ == g)
}

fn failed(status: u16, text: String) -> (r: HttpReply)
    ensures
        error_reply(r, status, text@),
{
    HttpReply { status, body: ReplyBody::Error(ApiError { error: text }) }
}

/// The answer to a request for an endpoint that is not there or is not announced.
pub fn no_such_endpoint() -> (r: HttpReply)
    ensures
        error_reply(r, 404, "端点不存在或已取消公开"@),
{
    failed(404, "端点不存在或已取消公开".to_owned())
}

/// The endpoint of this node that a request names.
pub open spec fn named_endpoint<P: AuthPolicy, D: DataPlaneBackend>(
    k: KernelModel<P, D>,
    id: Option<EndpointId>,
) -> Option<ManifestModel> {
    match id {
        Some(i) => if k.registry.mounts.dom().contains(k.registry.own(i)) {
            Some(k.registry.mounts[k.registry.own(i)].manifest())
        } else {
            None
        },
        None => None,
    }
}

/// The title of a session that is created on a request.
pub open spec fn grant_title(endpoint: Option<ManifestModel>, device_name: Seq<char>) -> Seq<char> {
    "接收 "@ + (match endpoint {
        Some(m) => m.name,
        None => device_name,
    }) + " 共享"@
}

/// The media of a request: those of the endpoint, or those that are asked for.
pub open spec fn grant_media(endpoint: Option<ManifestModel>, asked: Seq<MediaKind>) -> Seq<
    MediaKind,
> {
    match endpoint {
        Some(m) => seq![m.id.kind],
        None => asked,
    }
}

fn title_of(endpoint: Option<&EndpointManifest>, device_name: &str) -> (r: String)
    ensures
        r@ == grant_title(manifest_of(endpoint), device_name@),
{
    match endpoint {
        Some(m) => join3("接收 ", m.name.as_str(), " 共享"),
        None => join3("接收 ", device_name, " 共享"),
    }
}

fn media_of(endpoint: Option<&EndpointManifest>, asked: &Vec<MediaKind>) -> (r: Vec<MediaKind>)
    ensures
        r@ == grant_media(manifest_of(endpoint), asked@),
{
    match endpoint {
        Some(m) => {
            let mut r: Vec<MediaKind> = Vec::new();
            r.push(m.kind);
            assert(r@ =~= seq![m.kind]);
            r
        },
        None => clone_kinds(asked),
    }
}

/// What granting a request comes to, and what it sets going.
pub open spec fn granted_and_started<P: AuthPolicy, D: DataPlaneBackend>(
    pre: KernelModel<P, D>,
    mid: KernelModel<P, D>,
    post: KernelModel<P, D>,
    endpoint_id: Option<EndpointId>,
    trusted: bool,
    wanted: Option<Seq<char>>,
    asked: Seq<MediaKind>,
    device_id: Seq<char>,
    device_name: Seq<char>,
    now: u64,
    granted: Result<ShareGrant, String>,
    share: Option<ShareStart>,
) -> bool {
    let endpoint = named_endpoint(pre, endpoint_id);
    &&& grant_composed(
        pre,
        mid,
        endpoint,
        trusted,
        wanted,
        grant_media(endpoint, asked),
        grant_title(endpoint, device_name),
        now,
        granted,
    )
    &&& match granted {
        Ok(g) => share_started(mid, post, endpoint_id, g@, device_id, now, share),
        Err(_) => post == mid && share is None,
    }
}

/// The trusted devices after the user answered a request.
pub open spec fn trust_after(
    trusted: Map<Seq<char>, TrustedModel>,
    e: WaitingModel,
    remember: bool,
    now: u64,
) -> Map<Seq<char>, TrustedModel> {
    if remember {
        remembered(trusted, e.device_id, e.device_name, now)
    } else {
        trusted
    }
}

/// Whether a device that waits is told, once the user answered, that it is trusted.
pub open spec fn told_trusted(
    trusted: Map<Seq<char>, TrustedModel>,
    e: WaitingModel,
    remember: bool,
    now: u64,
) -> bool {
    trust_after(trusted, e, remember, now).dom().contains(e.device_id)
}

/// What an answer of the user to a waiting request comes to.
pub open spec fn responded<P: AuthPolicy, D: DataPlaneBackend>(
    pre: NegotiatorModel,
    post: NegotiatorModel,
    k0: KernelModel<P, D>,
    k1: KernelModel<P, D>,
    req_id: Seq<char>,
    allow: bool,
    remember: bool,
    now: u64,
    r: Responded,
) -> bool {
    if !pre.pending.dom().contains(req_id) {
        &&& post == pre
        &&& k1 == k0
        &&& r.result matches Err(t) && t@ == "挂起请求不存在或已处理: "@ + req_id
        &&& r.share is None
    } else {
        let e = pre.pending[req_id];
        let trusted = trust_after(pre.trusted, e, allow && remember, now);
        &&& post == (NegotiatorModel { pending: pre.pending.remove(req_id), trusted, ..pre })
        &&& if allow {
            exists|mid: KernelModel<P, D>, granted: Result<ShareGrant, String>|
                {
                    &&& #[trigger] granted_and_started(
                        k0,
                        mid,
                        k1,
                        e.endpoint_id,
                        told_trusted(pre.trusted, e, remember, now),
                        e.strategy_id,
                        seq![MediaKind::Mic],
                        e.device_id,
                        e.device_name,
                        now,
                        granted,
                        r.share,
                    )
                    &&& match granted {
                        Ok(g) => r.result matches Ok(Some(x)) && x@ == g@,
                        Err(t) => r.result matches Err(x) && x@ == t@,
                    }
                }
        } else {
            &&& k1 == k0
            &&& r.result matches Ok(None)
            &&& r.share is None
        }
    }
}

/// Why a request cannot be considered at all: the status and the text of the answer. Only what is
/// announced can be subscribed to.
pub open spec fn request_error<P: AuthPolicy, D: DataPlaneBackend>(
    k: KernelModel<P, D>,
    endpoint_id: Option<EndpointId>,
    media: Seq<MediaKind>,
) -> Option<(u16, Seq<char>)> {
    match endpoint_id {
        Some(id) => match named_endpoint(k, endpoint_id) {
            None => Some((404u16, "端点不存在或已取消公开"@)),
            Some(m) => if m.available {
                if m.published {
                    None
                } else {
                    Some((404u16, "端点不存在或已取消公开"@))
                }
            } else {
                Some(
                    (
                        404u16,
                        "端点不可用（"@ + (match m.last_error {
                            Some(e) => e,
                            None => "未知原因"@,
                        }) + "）: "@ + id.text(),
                    ),
                )
            },
        },
        None => if media.len() == 0 {
            Some((400u16, "media 不能为空"@))
        } else {
            None
        },
    }
}

/// The name of the waiting request with the number `n`.
pub open spec fn pending_name(n: u64) -> Seq<char> {
    "n"@ + dec(n as nat)
}

/// How a request goes on: it is answered with an error when it cannot be considered or the endpoint
/// is private; it is granted at once when its device may have it; else it waits for the user.
pub open spec fn request_handled<P: AuthPolicy, D: DataPlaneBackend>(
    pre: NegotiatorModel,
    post: NegotiatorModel,
    k0: KernelModel<P, D>,
    k1: KernelModel<P, D>,
    req: &ShareRequest,
    now: u64,
    r: RequestStep,
) -> bool {
    let endpoint = named_endpoint(k0, req.endpoint_id);
    let visibility = match endpoint {
        Some(m) => Some(m.visibility),
        None => None,
    };
    match request_error(k0, req.endpoint_id, req.media@) {
        Some(e) => {
            &&& post == pre
            &&& k1 == k0
            &&& r matches RequestStep::Reply(x, s) && error_reply(x, e.0, e.1) && s is None
        },
        None => if granted_at_once(pre.trusted, visibility, req.device_id@) {
            &&& post == pre
            &&& r is Reply
            &&& exists|mid: KernelModel<P, D>, granted: Result<ShareGrant, String>|
                {
                    &&& #[trigger] granted_and_started(
                        k0,
                        mid,
                        k1,
                        req.endpoint_id,
                        pre.trusted.dom().contains(req.device_id@),
                        opt_view(req.strategy_id),
                        req.media@,
                        req.device_id@,
                        req.device_name@,
                        now,
                        granted,
                        r->Reply_1,
                    )
                    &&& match granted {
                        Ok(g) => grant_reply(r->Reply_0, g@),
                        Err(t) => error_reply(r->Reply_0, 500, t@),
                    }
                }
        } else if visibility matches Some(v) && v is Private {
            &&& post == pre
            &&& k1 == k0
            &&& r matches RequestStep::Reply(x, s) && error_reply(
                x,
                403,
                "请求方不在该端点的白名单内"@,
            ) && s is None
        } else {
            let id = pending_name(k0.next_pending);
            &&& k1 == (KernelModel { next_pending: k0.next_pending.wrapping_add(1), ..k0 })
            &&& post == (NegotiatorModel {
                pending: pre.pending.insert(
                    id,
                    WaitingModel {
                        device_id: req.device_id@,
                        device_name: req.device_name@,
                        endpoint_id: req.endpoint_id,
                        strategy_id: opt_view(req.strategy_id),
                        delivery_mode: req.delivery_mode,
                        relay_addr: opt_view(req.relay_addr),
                        share_token: opt_view(req.share_token),
                    },
                ),
                ..pre
            })
            &&& r matches RequestStep::Wait(p) && p@ == (PendingModel {
                id,
                device_id: req.device_id@,
                device_name: req.device_name@,
                media: kind_labels(grant_media(endpoint, req.media@)),
                endpoint_name: match endpoint {
                    Some(m) => Some(m.name),
                    None => None,
                },
                created_at: now,
            })
        },
    }
}

/// What is shown of a waiting request when all are listed: the time at which it came is not kept.
pub open spec fn listed_request<P: AuthPolicy, D: DataPlaneBackend>(
    k: KernelModel<P, D>,
    id: Seq<char>,
    e: WaitingModel,
) -> PendingModel {
    PendingModel {
        id,
        device_id: e.device_id,
        device_name: e.device_name,
        media: seq!["mic"@],
        endpoint_name: match named_endpoint(k, e.endpoint_id) {
            Some(m) => Some(m.name),
            None => None,
        },
        created_at: 0,
    }
}

impl ShareNegotiator {
    pub open spec fn wf(&self) -> bool {
        self.store.wf() && self.pending.wf()
    }

    /// A negotiator without waiting requests.
    pub fn new(store: TrustStore, port: u16) -> (r: ShareNegotiator)
        requires
            store.wf(),
        ensures
            r.wf(),
            r@ == (NegotiatorModel {
                trusted: store@,
                pending: Map::<Seq<char>, WaitingModel>::empty(),
                port,
            }),
    {
        let r = ShareNegotiator { store, pending: Table::new(), port };
        assert(r@.pending =~= Map::<Seq<char>, WaitingModel>::empty());
        r
    }

    /// Has a request wait under the given name.
    pub fn hold(&mut self, id: String, entry: PendingEntry)
        requires
            old(self).wf(),
        ensures
            final(self).wf(),
            final(self)@ == (NegotiatorModel {
                pending: old(self)@.pending.insert(id@, entry@),
                ..old(self)@
            }),
    {
        let ghost m = entry@;
        let _ = self.pending.insert(id, entry);
        assert(self@.pending =~= old(self)@.pending.insert(id@, m));
    }

    /// Grants a request of a device, as far as the endpoint that it names allows it.
    pub fn grant<P: AuthPolicy, D: DataPlaneBackend>(
        &self,
        app: &mut Kernel<P, D>,
        device_id: &str,
        device_name: &str,
        endpoint_id: Option<EndpointId>,
        strategy_id: &Option<String>,
        delivery_mode: Option<Delivery>,
        now: u64,
    ) -> (r: Result<ShareGrant, String>)
        requires
            old(app).wf(),
            self.wf(),
        ensures
            final(app).wf(),
            ({
                let endpoint = named_endpoint(old(app)@, endpoint_id);
                grant_composed(
                    old(app)@,
                    final(app)@,
                    endpoint,
                    self@.trusted.dom().contains(device_id@),
                    opt_view(*strategy_id),
                    grant_media(endpoint, seq![MediaKind::Mic]),
                    grant_title(endpoint, device_name@),
                    now,
                    r,
                )
            }),
    {
        let found: Option<EndpointManifest> = match endpoint_id {
            Some(id) => app.endpoint_manifest(id),
            None => None,
        };
        let endpoint: Option<&EndpointManifest> = match &found {
            Some(m) => Some(m),
            None => None,
        };
        let mut mic: Vec<MediaKind> = Vec::new();
        mic.push(MediaKind::Mic);
        assert(mic@ =~= seq![MediaKind::Mic]);
        let wanted: Option<&str> = match strategy_id {
            Some(s) => Some(s.as_str()),
            None => None,
        };
        compose_grant(
            app,
            &self.store,
            device_id,
            endpoint,
            wanted,
            delivery_mode,
            media_of(endpoint, &mic),
            title_of(endpoint, device_name),
            now,
        )
    }

    /// The user answers a waiting request. With `remember` the device is trusted from now on, and
    /// the grant says so.
    pub fn respond<P: AuthPolicy, D: DataPlaneBackend>(
        &mut self,
        app: &mut Kernel<P, D>,
        req_id: &str,
        allow: bool,
        remember: bool,
        now: u64,
    ) -> (r: Responded)
        requires
            old(self).wf(),
            old(app).wf(),
        ensures
            final(self).wf(),
            final(app).wf(),
            responded(
                old(self)@,
                final(self)@,
                old(app)@,
                final(app)@,
                req_id@,
                allow,
                remember,
                now,
                r,
            ),
    {
        let ghost m0 = self@;
        let ghost k0 = app@;
        let entry: PendingEntry = match self.pending.remove(&req_id.to_owned()) {
            None => {
                assert(self@ =~= m0);
                return Responded {
                    result: Err(join2("挂起请求不存在或已处理: ", req_id)),
                    share: None,
                };
            },
            Some(e) => e,
        };
        assert(self@.pending =~= m0.pending.remove(req_id@));
        assert(m0.pending[req_id@] == entry@);
        if !allow {
            assert(self@ =~= NegotiatorModel { pending: m0.pending.remove(req_id@), ..m0 });
            return Responded { result: Ok(None), share: None };
        }
        if remember {
            self.store.remember(entry.device_id.as_str(), entry.device_name.as_str(), now);
        }
        assert(self@ == (NegotiatorModel {
            pending: m0.pending.remove(req_id@),
            trusted: trust_after(m0.trusted, m0.pending[req_id@], allow && remember, now),
            ..m0
        }));
        let granted = self.grant(
            app,
            entry.device_id.as_str(),
            entry.device_name.as_str(),
            entry.endpoint_id,
            &entry.strategy_id,
            entry.delivery_mode,
            now,
        );
        let ghost mid = app@;
        let ghost e = m0.pending[req_id@];
        let (result, share): (Result<Option<ShareGrant>, String>, Option<ShareStart>) =
            match granted {
            Err(t) => (Err(t), None),
            Ok(g) => {
                let share = notify_subscribed(
                    app,
                    entry.endpoint_id,
                    &g,
                    entry.device_id.as_str(),
                    now,
                );
                (Ok(Some(g)), share)
            },
        };
        assert(granted_and_started(
            k0,
            mid,
            app@,
            e.endpoint_id,
            told_trusted(m0.trusted, e, remember, now),
            e.strategy_id,
            seq![MediaKind::Mic],
            e.device_id,
            e.device_name,
            now,
            granted,
            share,
        ));
        Responded { result, share }
    }

    /// The number of waiting requests.
    pub fn pending_len(&self) -> (r: usize)
        requires
            self.wf(),
        ensures
            r == self@.pending.dom().len(),
    {
        assert(self@.pending.dom() =~= self.pending@.dom());
        self.pending.len()
    }

    /// All waiting requests, each once.
    pub fn pending_requests<P: AuthPolicy, D: DataPlaneBackend>(&self, app: &Kernel<P, D>) -> (r:
        Vec<PendingRequest>)
        requires
            self.wf(),
            app.wf(),
        ensures
            r@.len() == self@.pending.dom().len(),
            forall|i: int|
                0 <= i < r@.len() ==> self@.pending.dom().contains((#[trigger] r@[i]).id@) && r@[i]@
                    == listed_request(app@, r@[i].id@, self@.pending[r@[i].id@]),
            forall|i: int, j: int|
                #![trigger r@[i], r@[j]]
                0 <= i < j < r@.len() ==> r@[i].id@ != r@[j].id@,
    {
        let mut r: Vec<PendingRequest> = Vec::new();
        let n: usize = self.pending.len();
        let ghost keys = self.pending.keys();
        let mut i: usize = 0;
        proof {
            self.pending.lemma_keys();
            assert(self@.pending.dom() =~= self.pending@.dom());
        }
        while i < n
            invariant
                self.wf(),
                app.wf(),
                n == keys.len(),
                keys == self.pending.keys(),
                keys.no_duplicates(),
                i <= n,
                r@.len() == i,
                forall|j: int|
                    0 <= j < i ==> (#[trigger] r@[j]).id@ == keys[j] && self@.pending.dom().contains(
                        keys[j],
                    ) && r@[j]@ == listed_request(app@, keys[j], self@.pending[keys[j]]),
            decreases n - i,
        {
            let id: String = self.pending.key_at(i).clone();
            let e: &PendingEntry = self.pending.value_at(i);
            let mut media: Vec<String> = Vec::new();
            media.push("mic".to_owned());
            let endpoint_name: Option<String> = match e.endpoint_id {
                Some(eid) => match app.endpoint_manifest(eid) {
                    Some(m) => Some(m.name),
                    None => None,
                },
                None => None,
            };
            assert(texts(media@) =~= seq!["mic"@]);
            let p = PendingRequest {
                id,
                device_id: e.device_id.clone(),
                device_name: e.device_name.clone(),
                media,
                endpoint_name,
                created_at: 0,
            };
            assert(self@.pending[keys[i as int]] == e@);
            assert(p@ =~= listed_request(app@, keys[i as int], self@.pending[keys[i as int]]));
            r.push(p);
            i += 1;
        }
        r
    }

    /// Takes in a request for access.
    pub fn handle_request<P: AuthPolicy, D: DataPlaneBackend>(
        &mut self,
        app: &mut Kernel<P, D>,
        req: &ShareRequest,
        now: u64,
    ) -> (r: RequestStep)
        requires
            old(self).wf(),
            old(app).wf(),
        ensures
            final(self).wf(),
            final(app).wf(),
            request_handled(
                old(self)@,
                final(self)@,
                old(app)@,
                final(app)@,
                req,
                now,
                r,
            ),
    {
        let ghost m0 = self@;
        let ghost k0 = app@;
        let found: Option<EndpointManifest> = match req.endpoint_id {
            Some(id) => match app.endpoint_manifest(id) {
                None => {
                    return RequestStep::Reply(
                        failed(404, "端点不存在或已取消公开".to_owned()),
                        None,
                    );
                },
                Some(m) => {
                    if !m.available {
                        let reason: String = match &m.last_error {
                            Some(e) => e.clone(),
                            None => "未知原因".to_owned(),
                        };
                        let a: String = join3("端点不可用（", reason.as_str(), "）: ");
                        return RequestStep::Reply(
                            failed(404, join2(a.as_str(), id.to_text().as_str())),
                            None,
                        );
                    }
                    if !m.published {
                        return RequestStep::Reply(
                            failed(404, "端点不存在或已取消公开".to_owned()),
                            None,
                        );
                    }
                    Some(m)
                },
            },
            None => {
                if req.media.len() == 0 {
                    return RequestStep::Reply(failed(400, "media 不能为空".to_owned()), None);
                }
                None
            },
        };
        let endpoint: Option<&EndpointManifest> = match &found {
            Some(m) => Some(m),
            None => None,
        };
        assert(manifest_of(endpoint) == named_endpoint(k0, req.endpoint_id));
        match policy_decision(&self.store, endpoint, req.device_id.as_str()) {
            Decision::Reject(t) => RequestStep::Reply(failed(403, t.to_owned()), None),
            Decision::Grant => {
                let wanted: Option<&str> = match &req.strategy_id {
                    Some(s) => Some(s.as_str()),
                    None => None,
                };
                let granted = compose_grant(
                    app,
                    &self.store,
                    req.device_id.as_str(),
                    endpoint,
                    wanted,
                    req.delivery_mode,
                    media_of(endpoint, &req.media),
                    title_of(endpoint, req.device_name.as_str()),
                    now,
                );
                let ghost mid = app@;
                match granted {
                    Err(t) => {
                        proof {
                            assert(granted_and_started(
                                k0,
                                mid,
                                app@,
                                req.endpoint_id,
                                m0.trusted.dom().contains(req.device_id@),
                                opt_view(req.strategy_id),
                                req.media@,
                                req.device_id@,
                                req.device_name@,
                                now,
                                granted,
                                None,
                            ));
                        }
                        RequestStep::Reply(failed(500, t), None)
                    },
                    Ok(g) => {
                        let share = notify_subscribed(
                            app,
                            req.endpoint_id,
                            &g,
                            req.device_id.as_str(),
                            now,
                        );
                        proof {
                            assert(granted_and_started(
                                k0,
                                mid,
                                app@,
                                req.endpoint_id,
                                m0.trusted.dom().contains(req.device_id@),
                                opt_view(req.strategy_id),
                                req.media@,
                                req.device_id@,
                                req.device_name@,
                                now,
                                granted,
                                share,
                            ));
                        }
                        RequestStep::Reply(
                            HttpReply { status: 200, body: ReplyBody::Grant(g) },
                            share,
                        )
                    },
                }
            },
            Decision::Pending => {
                let n: u64 = app.new_pending_id();
                let id: String = join2("n", decimal(n).as_str());
                self.hold(
                    id.clone(),
                    PendingEntry {
                        device_id: req.device_id.clone(),
                        device_name: req.device_name.clone(),
                        endpoint_id: req.endpoint_id,
                        strategy_id: clone_opt(&req.strategy_id),
                        delivery_mode: req.delivery_mode,
                        relay_addr: clone_opt(&req.relay_addr),
                        share_token: clone_opt(&req.share_token),
                    },
                );
                let media = kind_names(&media_of(endpoint, &req.media));
                let endpoint_name: Option<String> = match endpoint {
                    Some(m) => Some(m.name.clone()),
                    None => None,
                };
                RequestStep::Wait(
                    PendingRequest {
                        id,
                        device_id: req.device_id.clone(),
                        device_name: req.device_name.clone(),
                        media,
                        endpoint_name,
                        created_at: now,
                    },
                )
            },
        }
    }

    /// Answers a request that waited for the user. When the time is over, the request no longer
    /// waits, so that an answer of the user that comes too late grants nothing.
    pub fn settle(&mut self, id: &str, end: WaitEnd) -> (r: HttpReply)
        requires
            old(self).wf(),
        ensures
            final(self).wf(),
            match end {
                WaitEnd::Granted(g) => grant_reply(r, g@) && final(self)@ == old(self)@,
                WaitEnd::Refused(t) => error_reply(r, 403, t@) && final(self)@ == old(self)@,
                WaitEnd::TimedOut => error_reply(r, 504, "等待用户确认超时"@) && final(self)@
                    == (NegotiatorModel {
                    pending: old(self)@.pending.remove(id@),
                    ..old(self)@
                }),
                WaitEnd::Lost => error_reply(r, 500, "内部错误"@) && final(self)@ == old(self)@,
            },
    {
        match end {
            WaitEnd::Granted(g) => HttpReply { status: 200, body: ReplyBody::Grant(g) },
            WaitEnd::Refused(t) => failed(403, t),
            WaitEnd::TimedOut => {
                let _ = self.pending.remove(&id.to_owned());
                assert(self@.pending =~= old(self)@.pending.remove(id@));
                failed(504, "等待用户确认超时".to_owned())
            },
            WaitEnd::Lost => failed(500, "内部错误".to_owned()),
        }
    }
}

/// How the waiting device learns of the answer of the user: an error while granting loses it.
pub fn wait_end(result: &Result<Option<ShareGrant>, String>) -> (r: WaitEnd)
    ensures
        match result {
            Ok(Some(g)) => r matches WaitEnd::Granted(x) && x@ == g@,
            Ok(None) => r matches WaitEnd::Refused(t) && t@ == "用户拒绝"@,
            Err(_) => r is Lost,
        },
{
    match result {
        Ok(Some(g)) => WaitEnd::Granted(g.clone()),
        Ok(None) => WaitEnd::Refused("用户拒绝".to_owned()),
        Err(_) => WaitEnd::Lost,
    }
}

/// The models of a list of manifests.
pub open spec fn manifest_models(v: Seq<EndpointManifest>) -> Seq<ManifestModel> {
    v.map_values(|m: EndpointManifest| m@)
}

/// The manifests that everybody may see: all but those of private endpoints.
pub open spec fn openly_listed(v: Seq<ManifestModel>) -> Seq<ManifestModel>
    decreases v.len(),
{
    if v.len() == 0 {
        Seq::empty()
    } else if v.last().visibility is Private {
        openly_listed(v.drop_last())
    } else {
        openly_listed(v.drop_last()).push(v.last())
    }
}

/// The directory of a node: its announced endpoints in listing order, without the private ones.
pub fn handle_endpoints<P: AuthPolicy, D: DataPlaneBackend>(app: &Kernel<P, D>) -> (r: EndpointDir)
    requires
        app.wf(),
    ensures
        exists|all: Seq<EndpointManifest>|
            #[trigger] manifests_listed(
                app@.registry.mounts,
                Some(app@.registry.self_node),
                true,
                all,
            ) && manifest_models(r.endpoints@) == openly_listed(manifest_models(all)),
        match app@.identity {
            Some(i) => r.node.node_id@ == i.device_id && r.node.node_name@ == i.device_name,
            None => r.node.node_id@ == ""@ && r.node.node_name@ == "本机"@,
        },
{
    let all = app.published_endpoints();
    let ghost models = manifest_models(all@);
    let mut endpoints: Vec<EndpointManifest> = Vec::new();
    let mut i: usize = 0;
    assert(manifest_models(endpoints@) =~= openly_listed(models.take(0)));
    while i < all.len()
        invariant
            models == manifest_models(all@),
            i <= all@.len(),
            manifest_models(endpoints@) == openly_listed(models.take(i as int)),
        decreases all.len() - i,
    {
        let ghost before = endpoints@;
        proof {
            let next = models.take(i as int + 1);
            assert(next.drop_last() =~= models.take(i as int));
            assert(next.last() == all@[i as int]@);
        }
        match &all[i].visibility {
            Visibility::Private { nodes } => {},
            _ => {
                endpoints.push(all[i].clone());
                assert(manifest_models(endpoints@) =~= manifest_models(before).push(
                    all@[i as int]@,
                ));
            },
        }
        i += 1;
    }
    assert(models.take(all@.len() as int) =~= models);
    let node: EndpointNode = match app.node_identity() {
        Some(i) => EndpointNode { node_id: i.device_id, node_name: i.device_name },
        None => EndpointNode { node_id: "".to_owned(), node_name: "本机".to_owned() },
    };
    EndpointDir { node, endpoints }
}

/// What a node answers when it is asked who it is.
pub fn handle_discovery<P: AuthPolicy, D: DataPlaneBackend>(app: &Kernel<P, D>) -> (r: (
    u16,
    Result<DiscoveryResp, ApiError>,
))
    requires
        app.wf(),
    ensures
        if can_be_found(app@) {
            r.0 == 200 && (r.1 matches Ok(m) && tells_about(app@, m))
        } else {
            r.0 == 404 && (r.1 matches Err(e) && e.error@ == "本节点未锚定中继"@)
        },
{
    match app.discovery_manifest() {
        Some(m) => (200, Ok(m)),
        None => (404, Err(ApiError { error: "本节点未锚定中继".to_owned() })),
    }
}

proof fn lemma_openly_listed(v: Seq<ManifestModel>)
    ensures
        forall|m: ManifestModel| #[trigger]
            openly_listed(v).contains(m) <==> v.contains(m) && !(m.visibility is Private),
    decreases v.len(),
{
    if v.len() > 0 {
        let p = v.drop_last();
        lemma_openly_listed(p);
        assert(v =~= p.push(v.last()));
        assert forall|m: ManifestModel| #[trigger]
            openly_listed(v).contains(m) <==> v.contains(m) && !(m.visibility is Private) by {
            crate::order::lemma_push_contains(p, v.last(), m);
            crate::order::lemma_push_contains(openly_listed(p), v.last(), m);
        }
    }
}

/// Without the user nothing is granted but to a device that may have it: one that is trusted, one
/// on the list of a private endpoint, or anybody where an endpoint is public. The endpoint that was
/// asked for is there, available and announced.
pub proof fn law_nothing_is_granted_without_permission<P: AuthPolicy, D: DataPlaneBackend>(
    n0: NegotiatorModel,
    n1: NegotiatorModel,
    k0: KernelModel<P, D>,
    k1: KernelModel<P, D>,
    req: &ShareRequest,
    now: u64,
    x: HttpReply,
    share: Option<ShareStart>,
)
    requires
        request_handled(n0, n1, k0, k1, req, now, RequestStep::Reply(x, share)),
        x.body is Grant,
    ensures
        ({
            let endpoint = named_endpoint(k0, req.endpoint_id);
            &&& granted_at_once(
                n0.trusted,
                match endpoint {
                    Some(m) => Some(m.visibility),
                    None => None,
                },
                req.device_id@,
            )
            &&& req.endpoint_id is Some ==> endpoint is Some && endpoint->0.available
                && endpoint->0.published
        }),
{
}

/// Private endpoints are not in the directory, and all others that are announced are.
pub proof fn law_private_endpoints_are_not_listed(all: Seq<ManifestModel>, m: ManifestModel)
    ensures
        openly_listed(all).contains(m) <==> all.contains(m) && !(m.visibility is Private),
{
    lemma_openly_listed(all);
}

/// A request is answered by the user at most once: a second answer, at whatever time, changes
/// nothing.
pub proof fn law_request_is_answered_once<P: AuthPolicy, D: DataPlaneBackend>(
    n0: NegotiatorModel,
    n1: NegotiatorModel,
    n2: NegotiatorModel,
    k0: KernelModel<P, D>,
    k1: KernelModel<P, D>,
    k2: KernelModel<P, D>,
    req_id: Seq<char>,
    allow1: bool,
    remember1: bool,
    allow2: bool,
    remember2: bool,
    now: u64,
    later: u64,
    r1: Responded,
    r2: Responded,
)
    requires
        responded(n0, n1, k0, k1, req_id, allow1, remember1, now, r1),
        responded(n1, n2, k1, k2, req_id, allow2, remember2, later, r2),
    ensures
        r2.result is Err,
        r2.share is None,
        n2 == n1,
        k2 == k1,
{
}

/// A refused request changes nothing but that it no longer waits.
pub proof fn law_refusal_changes_nothing<P: AuthPolicy, D: DataPlaneBackend>(
    n0: NegotiatorModel,
    n1: NegotiatorModel,
    k0: KernelModel<P, D>,
    k1: KernelModel<P, D>,
    req_id: Seq<char>,
    remember: bool,
    now: u64,
    r: Responded,
)
    requires
        responded(n0, n1, k0, k1, req_id, false, remember, now, r),
    ensures
        k1 == k0,
        n1.trusted == n0.trusted,
        n1.pending == n0.pending.remove(req_id),
        r.share is None,
{
    assert(n0.pending.remove(req_id) =~= n1.pending);
}

/// A device that the user allowed and had remembered is granted at once the next time, on anything
/// but a private endpoint.
pub proof fn law_allowed_and_remembered_is_granted_next_time<P: AuthPolicy, D: DataPlaneBackend>(
    n0: NegotiatorModel,
    n1: NegotiatorModel,
    k0: KernelModel<P, D>,
    k1: KernelModel<P, D>,
    req_id: Seq<char>,
    now: u64,
    r: Responded,
    visibility: Option<VisibilityModel>,
)
    requires
        n0.pending.dom().contains(req_id),
        responded(n0, n1, k0, k1, req_id, true, true, now, r),
        visibility matches Some(v) ==> !(v is Private),
    ensures
        granted_at_once(n1.trusted, visibility, n0.pending[req_id].device_id),
{
}

/// Whether all waiting requests have names that the kernel gave out.
pub open spec fn names_given<P: AuthPolicy, D: DataPlaneBackend>(
    n: NegotiatorModel,
    k: KernelModel<P, D>,
) -> bool {
    forall|id: Seq<char>| #[trigger]
        n.pending.dom().contains(id) ==> exists|i: u64|
            i < k.next_pending && id == #[trigger] pending_name(i)
}

proof fn lemma_names_differ(i: u64, j: u64)
    requires
        pending_name(i) == pending_name(j),
    ensures
        i == j,
{
    reveal_strlit("n");
    assert(dec(i as nat) =~= pending_name(i).skip(1));
    assert(dec(j as nat) =~= pending_name(j).skip(1));
    lemma_numeral_injective(i as nat, j as nat, 10);
}

/// A request that has to wait gets a name that no other waiting request has, and so it stays.
pub proof fn law_waiting_requests_have_names_of_their_own<P: AuthPolicy, D: DataPlaneBackend>(
    n0: NegotiatorModel,
    n1: NegotiatorModel,
    k0: KernelModel<P, D>,
    k1: KernelModel<P, D>,
    req: &ShareRequest,
    now: u64,
    r: RequestStep,
)
    requires
        names_given(n0, k0),
        k0.next_pending < u64::MAX,
        request_handled(n0, n1, k0, k1, req, now, r),
    ensures
        names_given(n1, k1),
        r matches RequestStep::Wait(p) ==> !n0.pending.dom().contains(p@.id)
            && n1.pending.dom().contains(p@.id),
{
    law_request_numbers_rise(n0, n1, k0, k1, req, now, r);
    let id = pending_name(k0.next_pending);
    if r is Wait && n0.pending.dom().contains(id) {
        let i = choose|i: u64| i < k0.next_pending && id == #[trigger] pending_name(i);
        lemma_names_differ(i, k0.next_pending);
    }
    assert forall|x: Seq<char>| #[trigger] n1.pending.dom().contains(x) implies exists|i: u64|
        i < k1.next_pending && x == #[trigger] pending_name(i) by {
        if r is Wait && x == id {
            assert(k0.next_pending < k1.next_pending && x == pending_name(k0.next_pending));
        } else {
            assert(n0.pending.dom().contains(x));
            let i = choose|i: u64| i < k0.next_pending && x == #[trigger] pending_name(i);
            assert(i < k1.next_pending && x == pending_name(i));
        }
    }
}

/// The numbers of waiting requests rise: a request that has to wait takes the next one, and no
/// other request takes any.
pub proof fn law_request_numbers_rise<P: AuthPolicy, D: DataPlaneBackend>(
    n0: NegotiatorModel,
    n1: NegotiatorModel,
    k0: KernelModel<P, D>,
    k1: KernelModel<P, D>,
    req: &ShareRequest,
    now: u64,
    r: RequestStep,
)
    requires
        request_handled(n0, n1, k0, k1, req, now, r),
    ensures
        r is Wait ==> k1.next_pending == k0.next_pending.wrapping_add(1),
        !(r is Wait) ==> k1.next_pending == k0.next_pending,
{
}

/// No answer of the user takes a number.
pub proof fn law_answers_take_no_number<P: AuthPolicy, D: DataPlaneBackend>(
    n0: NegotiatorModel,
    n1: NegotiatorModel,
    k0: KernelModel<P, D>,
    k1: KernelModel<P, D>,
    req_id: Seq<char>,
    allow: bool,
    remember: bool,
    now: u64,
    r: Responded,
)
    requires
        responded(n0, n1, k0, k1, req_id, allow, remember, now, r),
    ensures
        k1.next_pending == k0.next_pending,
{
}

/// Two requests that wait under one kernel have different names, whichever negotiators took them:
/// the later one, taken when the number of the kernel is no smaller than the first one left it,
/// is named otherwise.
pub proof fn law_names_differ_across_negotiators<P: AuthPolicy, D: DataPlaneBackend>(
    n0: NegotiatorModel,
    n1: NegotiatorModel,
    k0: KernelModel<P, D>,
    k1: KernelModel<P, D>,
    req: &ShareRequest,
    now: u64,
    shown: PendingRequest,
    m0: NegotiatorModel,
    m1: NegotiatorModel,
    k2: KernelModel<P, D>,
    k3: KernelModel<P, D>,
    later_req: &ShareRequest,
    later: u64,
    later_shown: PendingRequest,
)
    requires
        request_handled(n0, n1, k0, k1, req, now, RequestStep::Wait(shown)),
        k0.next_pending < u64::MAX,
        k1.next_pending <= k2.next_pending,
        request_handled(m0, m1, k2, k3, later_req, later, RequestStep::Wait(later_shown)),
    ensures
        shown@.id != later_shown@.id,
{
    if shown@.id == later_shown@.id {
        lemma_names_differ(k0.next_pending, k2.next_pending);
    }
}

/// An answer that is meant for one request is not taken for another: a negotiator that was made
/// anew does not know the name of a request that waits elsewhere.
pub proof fn law_answers_reach_their_request<P: AuthPolicy, D: DataPlaneBackend>(
    n0: NegotiatorModel,
    n1: NegotiatorModel,
    k0: KernelModel<P, D>,
    k1: KernelModel<P, D>,
    req: &ShareRequest,
    now: u64,
    shown: PendingRequest,
    m0: NegotiatorModel,
    m1: NegotiatorModel,
    k2: KernelModel<P, D>,
    k3: KernelModel<P, D>,
    later_req: &ShareRequest,
    later: u64,
    r: RequestStep,
)
    requires
        request_handled(n0, n1, k0, k1, req, now, RequestStep::Wait(shown)),
        k0.next_pending < u64::MAX,
        k1.next_pending <= k2.next_pending,
        !m0.pending.dom().contains(shown@.id),
        request_handled(m0, m1, k2, k3, later_req, later, r),
    ensures
        !m1.pending.dom().contains(shown@.id),
{
    if r is Wait && m1.pending.dom().contains(shown@.id) {
        assert(shown@.id == pending_name(k2.next_pending));
        lemma_names_differ(k0.next_pending, k2.next_pending);
    }
}

/// A request for an endpoint that is open to the device is granted at once: a public one to
/// everybody, one that has to be confirmed to trusted devices, a private one to the devices of its
/// list. The endpoint must be available and announced. The grant says whether the device is trusted
/// and names the relay of this node when it runs; and unless the endpoint is being shared already,
/// it is started for that device over the granted stream.
pub proof fn law_open_endpoint_is_granted_at_once<P: AuthPolicy, D: DataPlaneBackend>(
    n: &mut ShareNegotiator,
    app: &mut Kernel<P, D>,
    req: &ShareRequest,
    now: u64,
    r: RequestStep,
    id: EndpointId,
    m: EndpointManifest,
    device: &str,
    trusted: bool,
)
    requires
        call_ensures(ShareNegotiator::handle_request::<P, D>, (n, app, req, now), r),
        req.endpoint_id == Some(id),
        call_ensures(Kernel::<P, D>::endpoint_manifest, (&*old(app), id), Some(m)),
        device@ == req.device_id@,
        call_ensures(TrustStore::is_trusted, (&old(n).store, device), trusted),
        m.available,
        m.published,
        m.visibility is Public || (m.visibility is Confirm && trusted) || (m.visibility matches
            Visibility::Private { nodes } && exists|i: int|
            0 <= i < nodes@.len() && (#[trigger] nodes@[i])@ == req.device_id@),
        old(app).control.data_plane is None,
        req.strategy_id is None,
        m.strategies@.len() > 0,
        m.strategies@[0].serialize is Passthrough,
        old(app).wf(),
    ensures
        r matches RequestStep::Reply(x, share) && x.status == 200 && (x.body matches
            ReplyBody::Grant(g) && ({
            &&& g.trusted == trusted
            &&& g.relay is Some <==> old(app).anchor is Some
            &&& old(app).anchor matches Some(a) ==> g.relay == Some(
                RelayAddr { ws_port: a.port, srt_port: a.srt_port, quic_port: a.quic_port },
            )
            &&& g.transport_profile == Some(m.transport_profile)
            &&& g.strategy matches Some(s) && s@ == m.strategies@[0]@
            &&& share matches Some(s) ==> s.ctx.stream_id@ == g.view.stream_id@
                && s.ctx.subscriber@ == req.device_id@ && s.check.stream_id@ == g.view.stream_id@
            &&& share is None <==> exists|s: Seq<char>| #[trigger]
                old(app).active_shares@.dom().contains(s) && old(app).active_shares@[s].endpoint_id == id
            &&& final(app).active_shares@.dom().contains(g.view.stream_id@)
            &&& final(app).active_shares@[g.view.stream_id@].endpoint_id == id
        })),
        final(n)@ == old(n)@,
{
    let k0 = old(app)@;
    let mm = named_endpoint(k0, req.endpoint_id)->0;
    assert(mm == m@);
    assert(m.strategies@[0]@ == m@.strategies[0]);
    if let Visibility::Private { nodes } = m.visibility {
        let i = choose|i: int| 0 <= i < nodes@.len() && (#[trigger] nodes@[i])@ == req.device_id@;
        assert(texts(nodes@)[i] == req.device_id@);
    }
    assert(granted_at_once(old(n)@.trusted, Some(m@.visibility), req.device_id@));
    old(app).registry.lemma_consistent();
    assert(m@.id == id);
    let (mid, granted) = choose|mid: KernelModel<P, D>, granted: Result<ShareGrant, String>|
        {
            &&& #[trigger] granted_and_started(
                k0,
                mid,
                final(app)@,
                req.endpoint_id,
                old(n)@.trusted.dom().contains(req.device_id@),
                opt_view(req.strategy_id),
                req.media@,
                req.device_id@,
                req.device_name@,
                now,
                granted,
                r->Reply_1,
            )
            &&& match granted {
                Ok(g) => grant_reply(r->Reply_0, g@),
                Err(t) => error_reply(r->Reply_0, 500, t@),
            }
        };
    assert(m@.strategy_for(None) == m.strategies@[0]@);
    assert(mid.shares == k0.shares);
    assert(shared(k0.shares, id) <==> exists|s: Seq<char>| #[trigger]
        old(app).active_shares@.dom().contains(s) && old(app).active_shares@[s].endpoint_id == id);
}


/// A request for an endpoint that has to be confirmed waits when its device is not trusted. The user
/// is shown who asks for what, and since when; all that the request said is kept, nothing is
/// granted, and nobody becomes trusted.
pub proof fn law_unknown_device_has_to_wait<P: AuthPolicy, D: DataPlaneBackend>(
    n: &mut ShareNegotiator,
    app: &mut Kernel<P, D>,
    req: &ShareRequest,
    now: u64,
    r: RequestStep,
    id: EndpointId,
    m: EndpointManifest,
    device: &str,
)
    requires
        call_ensures(ShareNegotiator::handle_request::<P, D>, (n, app, req, now), r),
        req.endpoint_id == Some(id),
        call_ensures(Kernel::<P, D>::endpoint_manifest, (&*old(app), id), Some(m)),
        device@ == req.device_id@,
        call_ensures(TrustStore::is_trusted, (&old(n).store, device), false),
        m.available,
        m.published,
        m.visibility is Confirm,
    ensures
        r matches RequestStep::Wait(p) && ({
            let e = final(n)@.pending[p.id@];
            &&& p.device_id@ == req.device_id@
            &&& p.device_name@ == req.device_name@
            &&& p.endpoint_name matches Some(t) && t@ == m.name@
            &&& p.created_at == now
            &&& final(n)@.pending.dom() == old(n)@.pending.dom().insert(p.id@)
            &&& e.device_id == req.device_id@
            &&& e.device_name == req.device_name@
            &&& e.endpoint_id == Some(id)
            &&& e.strategy_id == opt_view(req.strategy_id)
            &&& e.delivery_mode == req.delivery_mode
        }),
        final(n)@.trusted == old(n)@.trusted,
        final(app).active_shares@ == old(app).active_shares@,
        final(app).control == old(app).control,
        final(app)@.registry == old(app)@.registry,
{
    assert(named_endpoint(old(app)@, req.endpoint_id)->0 == m@);
}

/// A request that cannot be considered is answered with the reason: an endpoint that this node does
/// not have, does not announce or cannot offer is not found, a private one is forbidden to devices
/// that are not on its list, and without an endpoint some media have to be asked for. Nothing else
/// happens.
pub proof fn law_hopeless_request_is_answered<P: AuthPolicy, D: DataPlaneBackend>(
    n: &mut ShareNegotiator,
    app: &mut Kernel<P, D>,
    req: &ShareRequest,
    now: u64,
    r: RequestStep,
    id: EndpointId,
    m: Option<EndpointManifest>,
)
    requires
        call_ensures(ShareNegotiator::handle_request::<P, D>, (n, app, req, now), r),
        call_ensures(Kernel::<P, D>::endpoint_manifest, (&*old(app), id), m),
    ensures
        req.endpoint_id == Some(id) && m is None ==> refused_with(r, 404),
        req.endpoint_id == Some(id) && m is Some && !(m->0.available && m->0.published)
            ==> refused_with(r, 404),
        req.endpoint_id == Some(id) && m is Some && m->0.available && m->0.published && (
        m->0.visibility matches Visibility::Private { nodes } && forall|i: int|
            0 <= i < nodes@.len() ==> (#[trigger] nodes@[i])@ != req.device_id@) ==> refused_with(
            r,
            403,
        ),
        req.endpoint_id is None && req.media@.len() == 0 ==> refused_with(r, 400),
        refused_with(r, 404) || refused_with(r, 403) || refused_with(r, 400) ==> final(n)@ == old(n)@ && final(app)@ == old(app)@,
{
    let k0 = old(app)@;
    if req.endpoint_id == Some(id) && m is Some {
        assert(named_endpoint(k0, req.endpoint_id)->0 == m->0@);
        if let Visibility::Private { nodes } = m->0.visibility {
            if texts(nodes@).contains(req.device_id@) {
                let i = choose|i: int|
                    0 <= i < texts(nodes@).len() && texts(nodes@)[i] == req.device_id@;
                assert(nodes@[i]@ == req.device_id@);
            }
        }
    }
}

/// Whether a request was answered with an error of the given status, and nothing was set going.
pub open spec fn refused_with(r: RequestStep, status: u16) -> bool {
    r matches RequestStep::Reply(x, share) && x.status == status && x.body is Error && share is None
}

/// A request without an endpoint waits for the user when its device is not trusted; a trusted device
/// gets a token for what it asked for at once.
pub proof fn law_token_request_needs_trust<P: AuthPolicy, D: DataPlaneBackend>(
    n: &mut ShareNegotiator,
    app: &mut Kernel<P, D>,
    req: &ShareRequest,
    now: u64,
    r: RequestStep,
    device: &str,
    trusted: bool,
)
    requires
        call_ensures(ShareNegotiator::handle_request::<P, D>, (n, app, req, now), r),
        req.endpoint_id is None,
        req.media@.len() > 0,
        device@ == req.device_id@,
        call_ensures(TrustStore::is_trusted, (&old(n).store, device), trusted),
        old(app).control.data_plane is None,
    ensures
        !trusted ==> (r matches RequestStep::Wait(p) && p.device_id@ == req.device_id@
            && p.endpoint_name is None && p.media@.len() == req.media@.len()),
        trusted ==> (r matches RequestStep::Reply(x, share) && share is None && x.status == 200 && (
        x.body matches ReplyBody::Grant(g) && g.trusted && g.delivery is None && g.relay is None
            && final(app).control.share_tokens@.dom().contains(g.view.stream_id@) && final(app).control.share_tokens@[g.view.stream_id@].media == req.media@)),
{
    if let RequestStep::Wait(p) = r {
        assert(texts(p.media@).len() == p.media@.len());
        assert(kind_labels(req.media@).len() == req.media@.len());
    }
}

/// What the user allows is granted as it was asked for: the request that waited for an endpoint is
/// granted on that endpoint, to the device that asked, and the endpoint is started for it unless it
/// is being shared. The request no longer waits. The device is trusted afterwards exactly when it
/// was before or is to be remembered, and the grant says so.
pub proof fn law_allowed_request_is_granted<P: AuthPolicy, D: DataPlaneBackend>(
    n: &mut ShareNegotiator,
    app: &mut Kernel<P, D>,
    req_id: &str,
    remember: bool,
    now: u64,
    r: Responded,
    id: EndpointId,
    m: EndpointManifest,
)
    requires
        old(n).wf(),
        old(app).wf(),
        old(n)@.pending.dom().contains(req_id@),
        old(n)@.pending[req_id@].endpoint_id == Some(id),
        old(n)@.pending[req_id@].strategy_id is None,
        call_ensures(
            ShareNegotiator::respond::<P, D>,
            (n, app, req_id, true, remember, now),
            r,
        ),
        call_ensures(Kernel::<P, D>::endpoint_manifest, (&*old(app), id), Some(m)),
        old(app).control.data_plane is None,
        m.strategies@.len() > 0,
        m.strategies@[0].serialize is Passthrough,
    ensures
        ({
            let e = old(n)@.pending[req_id@];
            let was = old(n)@.trusted.dom().contains(e.device_id);
            &&& !final(n)@.pending.dom().contains(req_id@)
            &&& final(n)@.trusted.dom().contains(e.device_id) <==> was || remember
            &&& remember && !was ==> final(n)@.trusted[e.device_id].name == e.device_name
            &&& r.result matches Ok(Some(g)) && ({
                &&& g.trusted <==> was || remember
                &&& final(app).active_shares@.dom().contains(g.view.stream_id@)
                &&& final(app).active_shares@[g.view.stream_id@].endpoint_id == id
                &&& g.strategy matches Some(s) && s@ == m.strategies@[0]@
                &&& g.relay is Some <==> old(app).anchor is Some
                &&& r.share matches Some(s) ==> s.ctx.stream_id@ == g.view.stream_id@
                    && s.ctx.subscriber@ == e.device_id
                &&& r.share is None <==> exists|s: Seq<char>| #[trigger]
                    old(app).active_shares@.dom().contains(s) && old(app).active_shares@[s].endpoint_id == id
            })
        }),
{
    let k0 = old(app)@;
    let e = old(n)@.pending[req_id@];
    assert(named_endpoint(k0, Some(id))->0 == m@);
    assert(m.strategies@[0]@ == m@.strategies[0]);
    old(app).registry.lemma_consistent();
    assert(m@.id == id);
    let (mid, granted) = choose|mid: KernelModel<P, D>, granted: Result<ShareGrant, String>|
        {
            &&& #[trigger] granted_and_started(
                k0,
                mid,
                final(app)@,
                e.endpoint_id,
                told_trusted(old(n)@.trusted, e, remember, now),
                e.strategy_id,
                seq![MediaKind::Mic],
                e.device_id,
                e.device_name,
                now,
                granted,
                r.share,
            )
            &&& match granted {
                Ok(g) => r.result matches Ok(Some(x)) && x@ == g@,
                Err(t) => r.result matches Err(x) && x@ == t@,
            }
        };
    assert(m@.strategy_for(None) == m.strategies@[0]@);
    assert(mid.shares == k0.shares);
    assert(shared(k0.shares, id) <==> exists|s: Seq<char>| #[trigger]
        old(app).active_shares@.dom().contains(s) && old(app).active_shares@[s].endpoint_id == id);
}

/// What the user refuses is refused: the request no longer waits, and the device that waited is told
/// so. An answer to a request that does not wait is an error.
pub proof fn law_refused_request_is_refused<P: AuthPolicy, D: DataPlaneBackend>(
    n: &mut ShareNegotiator,
    app: &mut Kernel<P, D>,
    req_id: &str,
    remember: bool,
    now: u64,
    r: Responded,
    told: WaitEnd,
)
    requires
        call_ensures(
            ShareNegotiator::respond::<P, D>,
            (n, app, req_id, false, remember, now),
            r,
        ),
        call_ensures(wait_end, (&r.result,), told),
    ensures
        old(n)@.pending.dom().contains(req_id@) ==> (r.result matches Ok(None)) && told is Refused
            && !final(n)@.pending.dom().contains(req_id@),
        !old(n)@.pending.dom().contains(req_id@) ==> r.result is Err && told is Lost,
        final(n)@.trusted == old(n)@.trusted,
        final(app)@ == old(app)@,
        r.share is None,
{
}

/// The device that waits gets what the user answered: the very grant when the request was allowed,
/// a refusal when it was refused, an error when granting failed. When the time is over it is told
/// so, and its request no longer waits.
pub proof fn law_waiting_device_gets_the_answer(
    result: &Result<Option<ShareGrant>, String>,
    told: WaitEnd,
    n: &mut ShareNegotiator,
    id: &str,
    x: HttpReply,
    late: &mut ShareNegotiator,
    y: HttpReply,
)
    requires
        call_ensures(wait_end, (result,), told),
        call_ensures(ShareNegotiator::settle, (n, id, told), x),
        call_ensures(ShareNegotiator::settle, (late, id, WaitEnd::TimedOut), y),
    ensures
        result matches Ok(Some(g)) ==> x.status == 200 && (x.body matches ReplyBody::Grant(h) && h@
            == g@ && h.view.stream_id@ == g.view.stream_id@ && h.relay == g.relay && h.trusted
            == g.trusted),
        result matches Ok(None) ==> x.status == 403 && x.body is Error,
        result is Err ==> x.status == 500 && x.body is Error,
        final(n)@ == old(n)@,
        y.status == 504,
        y.body is Error,
        !final(late)@.pending.dom().contains(id@),
        final(late)@.trusted == old(late)@.trusted,
{
}

/// Every waiting request is listed, with the device that asks and the name of the endpoint that it
/// asks for.
pub proof fn law_waiting_requests_are_listed<P: AuthPolicy, D: DataPlaneBackend>(
    n: &ShareNegotiator,
    app: &Kernel<P, D>,
    r: Vec<PendingRequest>,
    count: usize,
    id: Seq<char>,
) -> (i: int)
    requires
        n.wf(),
        call_ensures(ShareNegotiator::pending_requests::<P, D>, (n, app), r),
        call_ensures(ShareNegotiator::pending_len, (n,), count),
        n@.pending.dom().contains(id),
    ensures
        r@.len() == count,
        0 <= i < r@.len(),
        r@[i].id@ == id,
        r@[i].device_id@ == n@.pending[id].device_id,
        r@[i].device_name@ == n@.pending[id].device_name,
{
    n.pending.lemma_keys();
    assert(n@.pending.dom() =~= n.pending@.dom());
    let ids = r@.map_values(|p: PendingRequest| p.id@);
    assert(ids.no_duplicates()) by {
        assert forall|a: int, b: int|
            0 <= a < ids.len() && 0 <= b < ids.len() && a != b implies ids[a] != ids[b] by {
            if a < b {
                assert(r@[a].id@ != r@[b].id@);
            } else {
                assert(r@[b].id@ != r@[a].id@);
            }
        }
    }
    ids.unique_seq_to_set();
    assert(ids.to_set().subset_of(n@.pending.dom())) by {
        assert forall|x: Seq<char>| ids.to_set().contains(x) implies n@.pending.dom().contains(
            x,
        ) by {
            let a = choose|a: int| 0 <= a < ids.len() && ids[a] == x;
            assert(n@.pending.dom().contains(r@[a].id@));
        }
    }
    vstd::set_lib::lemma_subset_equality(ids.to_set(), n@.pending.dom());
    assert(ids.to_set().contains(id));
    let i = choose|i: int| 0 <= i < ids.len() && ids[i] == id;
    assert(r@[i].id@ == id);
    i
}

/// A new negotiator trusts whom its list of trusted devices names, and nobody waits.
pub proof fn law_new_negotiator_starts_idle(
    store: TrustStore,
    port: u16,
    n: ShareNegotiator,
    count: usize,
)
    requires
        store.wf(),
        call_ensures(ShareNegotiator::new, (store, port), n),
        call_ensures(ShareNegotiator::pending_len, (&n,), count),
    ensures
        count == 0,
        n@.trusted == store@,
        n.port == port,
{
}

/// The directory says whose it is, and lists each endpoint of this node that is announced and not
/// private, as its manifest has it.
pub proof fn law_directory_lists_open_endpoints<P: AuthPolicy, D: DataPlaneBackend>(
    app: &Kernel<P, D>,
    dir: EndpointDir,
    id: EndpointId,
    m: EndpointManifest,
) -> (i: int)
    requires
        call_ensures(handle_endpoints::<P, D>, (app,), dir),
        call_ensures(Kernel::<P, D>::endpoint_manifest, (app, id), Some(m)),
        m.published,
        !(m.visibility is Private),
    ensures
        0 <= i < dir.endpoints@.len(),
        dir.endpoints@[i]@ == m@,
        app.identity matches Some(who) ==> dir.node.node_id@ == who.device_id@
            && dir.node.node_name@ == who.device_name@,
{
    let mounts = app@.registry.mounts;
    let own = Some(app@.registry.self_node);
    let all = choose|all: Seq<EndpointManifest>|
        #[trigger] manifests_listed(mounts, own, true, all) && manifest_models(dir.endpoints@)
            == openly_listed(manifest_models(all));
    let keys = choose|keys: Seq<RefModel>|
        {
            &&& #[trigger] lists(mounts, own, true, keys)
            &&& all.len() == keys.len()
            &&& forall|i: int|
                0 <= i < all.len() ==> (#[trigger] all[i])@ == mounts[keys[i]].manifest()
        };
    let key = app@.registry.own(id);
    assert(keys.contains(key));
    let j = choose|j: int| 0 <= j < keys.len() && keys[j] == key;
    assert(all[j]@ == m@);
    assert(manifest_models(all)[j] == m@);
    assert(manifest_models(all).contains(m@));
    lemma_openly_listed(manifest_models(all));
    let shown = manifest_models(dir.endpoints@);
    assert(shown.contains(m@));
    let i = choose|i: int| 0 <= i < shown.len() && shown[i] == m@;
    i
}

/// What the directory lists is announced and not private.
pub proof fn law_directory_lists_nothing_hidden<P: AuthPolicy, D: DataPlaneBackend>(
    app: &Kernel<P, D>,
    dir: EndpointDir,
    i: int,
)
    requires
        call_ensures(handle_endpoints::<P, D>, (app,), dir),
        0 <= i < dir.endpoints@.len(),
    ensures
        dir.endpoints@[i].published,
        !(dir.endpoints@[i].visibility is Private),
{
    let mounts = app@.registry.mounts;
    let own = Some(app@.registry.self_node);
    let all = choose|all: Seq<EndpointManifest>|
        #[trigger] manifests_listed(mounts, own, true, all) && manifest_models(dir.endpoints@)
            == openly_listed(manifest_models(all));
    let keys = choose|keys: Seq<RefModel>|
        {
            &&& #[trigger] lists(mounts, own, true, keys)
            &&& all.len() == keys.len()
            &&& forall|i: int|
                0 <= i < all.len() ==> (#[trigger] all[i])@ == mounts[keys[i]].manifest()
        };
    let shown = manifest_models(dir.endpoints@);
    assert(shown[i] == dir.endpoints@[i]@);
    lemma_openly_listed(manifest_models(all));
    assert(shown.contains(shown[i]));
    assert(manifest_models(all).contains(shown[i]));
    let j = choose|j: int|
        0 <= j < manifest_models(all).len() && manifest_models(all)[j] == shown[i];
    assert(all[j]@ == shown[i]);
    assert(keys.contains(keys[j]));
}

/// A node that may be found, has a relay and knows who it is tells so to whoever asks, with the ports
/// of its relay; another node is not found.
pub proof fn law_node_says_who_it_is<P: AuthPolicy, D: DataPlaneBackend>(
    app: &Kernel<P, D>,
    r: (u16, Result<DiscoveryResp, ApiError>),
)
    requires
        call_ensures(handle_discovery::<P, D>, (app,), r),
    ensures
        app.discoverable && app.anchor is Some && app.identity is Some ==> r.0 == 200 && (
        r.1 matches Ok(m) && m.node_id@ == app.identity->0.device_id@ && m.name@
            == app.identity->0.device_name@ && m.relay_port == app.anchor->0.port && m.srt_port
            == app.anchor->0.srt_port && m.quic_port == app.anchor->0.quic_port),
        !(app.discoverable && app.anchor is Some && app.identity is Some) ==> r.0 == 404
            && r.1 is Err,
{
}

/// Whoever answers from the command line reads who asks, and how to answer that request; without a
/// user interface nothing is shown.
pub proof fn law_user_reads_how_to_answer(
    ui: &CliUi,
    none: &NoopUi,
    req: &PendingRequest,
    r: Option<String>,
    nothing: Option<String>,
) -> (at: (int, int))
    requires
        call_ensures(<CliUi as NegotiatorUi>::request_pending, (ui, req), r),
        call_ensures(<NoopUi as NegotiatorUi>::request_pending, (none, req), nothing),
    ensures
        nothing is None,
        r matches Some(t) && ({
            let (name, id) = at;
            let end = t@.len() - " --allow"@.len();
            &&& 0 <= name && name + req.device_name@.len() <= id
            &&& t@.subrange(name, name + req.device_name@.len()) == req.device_name@
            &&& id + req.device_id@.len() <= end - req.id@.len()
            &&& t@.subrange(id, id + req.device_id@.len()) == req.device_id@
            &&& t@.subrange(end - req.id@.len(), end) == req.id@
            &&& t@.skip(end) == " --allow"@
        }),
{
    let a = "设备 "@;
    let b = a + req.device_name@ + "（"@;
    let c = b + req.device_id@ + "）请求接入（"@;
    let name = a.len() as int;
    let id = b.len() as int;
    let t = r->0@;
    let rest = c + joined(texts(req.media@), ","@)
        + "），等待确认：stross ctrl negotiator-list / negotiator-respond "@;
    assert(t == rest + req.id@ + " --allow"@);
    let end = t.len() - " --allow"@.len();
    assert(t.subrange(name, name + req.device_name@.len()) =~= req.device_name@);
    assert(t.subrange(id, id + req.device_id@.len()) =~= req.device_id@);
    assert(t.subrange(end - req.id@.len(), end) =~= req.id@);
    assert(t.skip(end) =~= " --allow"@);
    (name, id)
}

/// A session that is opened for a device bears the name of that device, and one that is opened for
/// an endpoint bears the name of the endpoint, between words that say what it is for.
pub proof fn law_session_bears_the_name_it_is_for<P: AuthPolicy, D: DataPlaneBackend>(
    n: &ShareNegotiator,
    app: &mut Kernel<P, D>,
    device_id: &str,
    device_name: &str,
    endpoint_id: Option<EndpointId>,
    strategy_id: &Option<String>,
    delivery_mode: Option<Delivery>,
    now: u64,
    g: ShareGrant,
    m: EndpointManifest,
)
    requires
        call_ensures(
            ShareNegotiator::grant::<P, D>,
            (
                n,
                app,
                device_id,
                device_name,
                endpoint_id,
                strategy_id,
                delivery_mode,
                now,
            ),
            Ok::<ShareGrant, String>(g),
        ),
        endpoint_id matches Some(id) ==> call_ensures(
            Kernel::<P, D>::endpoint_manifest,
            (&*old(app), id),
            Some(m),
        ),
        !old(app).control.sessions@.dom().contains(g.view.stream_id@),
        endpoint_id matches Some(id) ==> !shared(old(app)@.shares, m@.id),
    ensures
        final(app).control.sessions@.dom().contains(g.view.stream_id@),
        ({
            let title = final(app).control.sessions@[g.view.stream_id@].title;
            let name = if endpoint_id is Some {
                m.name@
            } else {
                device_name@
            };
            &&& title.len() > name.len() + 3
            &&& title.subrange(3, 3int + name.len()) == name
        }),
        endpoint_id is None ==> final(app).control.share_tokens@.dom().contains(g.view.stream_id@)
            && final(app).control.share_tokens@[g.view.stream_id@].media == seq![MediaKind::Mic],
{
    reveal_strlit("接收 ");
    reveal_strlit(" 共享");
    let title = final(app).control.sessions@[g.view.stream_id@].title;
    let name = if endpoint_id is Some {
        m.name@
    } else {
        device_name@
    };
    assert(title == "接收 "@ + name + " 共享"@);
    assert(title.subrange(3, 3 + name.len() as int) =~= name);
}

/// A waiting request shows the name of the endpoint that is asked for.
pub proof fn law_waiting_request_names_its_endpoint<P: AuthPolicy, D: DataPlaneBackend>(
    n: &ShareNegotiator,
    app: &Kernel<P, D>,
    r: Vec<PendingRequest>,
    i: int,
    id: EndpointId,
    m: EndpointManifest,
)
    requires
        n.wf(),
        call_ensures(ShareNegotiator::pending_requests::<P, D>, (n, app), r),
        0 <= i < r@.len(),
        call_ensures(Kernel::<P, D>::endpoint_manifest, (app, id), Some(m)),
    ensures
        n@.pending[r@[i].id@].endpoint_id == Some(id) ==> (r@[i].endpoint_name matches Some(t) && t@
            == m.name@),
        n@.pending[r@[i].id@].endpoint_id is None ==> r@[i].endpoint_name is None,
{
    assert(r@[i]@.endpoint_name == opt_view(r@[i].endpoint_name));
}

/// A request that has to wait is kept as it came, and the user is told the kind of the endpoint that
/// is asked for.
pub proof fn law_waiting_request_is_kept_whole<P: AuthPolicy, D: DataPlaneBackend>(
    n: &mut ShareNegotiator,
    app: &mut Kernel<P, D>,
    req: &ShareRequest,
    now: u64,
    p: PendingRequest,
    id: EndpointId,
    m: EndpointManifest,
    label: &'static str,
)
    requires
        call_ensures(
            ShareNegotiator::handle_request::<P, D>,
            (n, app, req, now),
            RequestStep::Wait(p),
        ),
        req.endpoint_id == Some(id),
        call_ensures(Kernel::<P, D>::endpoint_manifest, (&*old(app), id), Some(m)),
        call_ensures(MediaKind::as_str, (m.kind,), label),
    ensures
        ({
            let e = final(n)@.pending[p.id@];
            &&& e.relay_addr == opt_view(req.relay_addr)
            &&& e.share_token == opt_view(req.share_token)
            &&& e.strategy_id == opt_view(req.strategy_id)
            &&& e.delivery_mode == req.delivery_mode
        }),
        p.media@.len() == 1,
        p.media@[0]@ == label@,
{
    assert(named_endpoint(old(app)@, req.endpoint_id)->0 == m@);
    assert(p@.media == texts(p.media@));
    assert(p@.media.len() == 1);
    assert(texts(p.media@)[0] == p.media@[0]@);
}

} // verus!
