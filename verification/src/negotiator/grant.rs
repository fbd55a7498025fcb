//! Who is granted access, and to what.

use vstd::prelude::*;

use crate::error::Error;
use crate::kernel::auth::AuthPolicy;
use crate::kernel::data_plane::DataPlaneBackend;
use crate::kernel::endpoint::manifest::{first_with_id, str_view, EndpointManifest, ManifestModel};
use crate::kernel::endpoint::mounts::{remote_entry, EntryModel};
use crate::kernel::session::SessionPrefs;
use crate::kernel::session_api::{
    admitted, local_session, new_session, new_token, plane_error, session_ensured, token_issued,
    token_refused, ShareTokenView,
};
use crate::kernel::share_service::{shared, ShareCheck};
use crate::kernel::subscribe_service::{serialize_name, serialize_words};
use crate::kernel::{Kernel, KernelModel, ShareRecord};
use crate::message::{
    texts, CtxModel, Delivery, EndpointId, EndpointState, EndpointStrategy, MediaKind, PickRule,
    ReliabilityProfile, SerializeRule, StrategyModel, SubscribeCtx, TransportId,
    TransportPreference, VisibilityModel, Visibility,
};
use crate::negotiator::dto::{GrantModel, RelayAddr, ShareGrant, TokenViewModel};
use crate::negotiator::trust::{remembered, TrustStore, TrustedModel};
use crate::pick::load::loader_for;
use crate::stream_id::{derive_stream_id, stream_id_of};
use crate::text::{hex, join3, same};

verus! {

/// How long a granted token is valid, in seconds.
pub const DEFAULT_GRANT_TTL_SECS: u64 = 600;

/// What is to be done with a request.
#[derive(Debug, Clone, Copy, PartialEq, Eq)]
pub enum Decision {
    /// It is granted at once.
    Grant,
    /// The user has to confirm it.
    Pending,
    /// It is refused, for the given reason.
    Reject(&'static str),
}

/// Whether a request is granted, under the visibility of the endpoint that is asked for: public
/// endpoints are open to everybody, private ones to the devices of their list. What needs to be
/// confirmed, and what names no endpoint, is granted to trusted devices.
pub open spec fn granted_at_once(
    trusted: Map<Seq<char>, TrustedModel>,
    visibility: Option<VisibilityModel>,
    requester: Seq<char>,
) -> bool {
    match visibility {
        None => trusted.dom().contains(requester),
        Some(VisibilityModel::Public) => true,
        Some(VisibilityModel::Confirm) => trusted.dom().contains(requester),
        Some(VisibilityModel::Private { nodes }) => nodes.contains(requester),
    }
}

/// The visibility of an optional endpoint.
pub open spec fn visibility_of(endpoint: Option<&EndpointManifest>) -> Option<VisibilityModel> {
    match endpoint {
        Some(m) => Some(m.visibility@),
        None => None,
    }
}

/// The manifest of an optional endpoint.
pub open spec fn manifest_of(endpoint: Option<&EndpointManifest>) -> Option<ManifestModel> {
    match endpoint {
        Some(m) => Some(m@),
        None => None,
    }
}

fn lists_node(nodes: &Vec<String>, requester: &str) -> (r: bool)
    ensures
        r == texts(nodes@).contains(requester@),
{
    let mut i: usize = 0;
    while i < nodes.len()
        invariant
            i <= nodes@.len(),
            forall|j: int| 0 <= j < i ==> (#[trigger] nodes@[j])@ != requester@,
        decreases nodes.len() - i,
    {
        if same(nodes[i].as_str(), requester) {
            assert(texts(nodes@)[i as int] == requester@);
            return true;
        }
        i += 1;
    }
    proof {
        if texts(nodes@).contains(requester@) {
            let j = choose|j: int| 0 <= j < texts(nodes@).len() && texts(nodes@)[j] == requester@;
            assert(nodes@[j]@ == requester@);
        }
    }
    false
}

/// Decides on a request. What is not granted at once is refused when the endpoint is private, and
/// left to the user otherwise.
pub fn policy_decision(
    store: &TrustStore,
    endpoint: Option<&EndpointManifest>,
    requester: &str,
) -> (r: Decision)
    requires
        store.wf(),
    ensures
        r is Grant <==> granted_at_once(store@, visibility_of(endpoint), requester@),
        r is Reject <==> !(r is Grant) && (visibility_of(endpoint) matches Some(v) && v is Private),
        r matches Decision::Reject(t) ==> t@ == "请求方不在该端点的白名单内"@,
{
    match endpoint {
        None => if store.is_trusted(requester) {
            Decision::Grant
        } else {
            Decision::Pending
        },
        Some(m) => match &m.visibility {
            Visibility::Public => Decision::Grant,
            Visibility::Confirm => if store.is_trusted(requester) {
                Decision::Grant
            } else {
                Decision::Pending
            },
            Visibility::Private { nodes } => if lists_node(nodes, requester) {
                Decision::Grant
            } else {
                Decision::Reject("请求方不在该端点的白名单内")
            },
        },
    }
}

/// Why a strategy is refused.
pub open spec fn unsupported_text(id: EndpointId, s: StrategyModel) -> Seq<char> {
    "内核不支持序列化规则 "@ + serialize_words(s.serialize) + "（端点 "@ + id.text() + " 策略 "@
        + s.strategy_id + "）——协商拒绝，不静默降级"@
}

/// The strategy that a subscriber gets: the one it asked for, else the first one of the endpoint.
pub fn strategy_of(m: &EndpointManifest, strategy_id: Option<&str>) -> (r: EndpointStrategy)
    ensures
        r@ == m@.strategy_for(str_view(strategy_id)),
{
    m.strategy(strategy_id)
}

/// The strategy that a subscriber gets, unless its packing is not implemented: then the request is
/// refused rather than served in another way.
pub fn checked_strategy(m: &EndpointManifest, strategy_id: Option<&str>) -> (r: Result<
    EndpointStrategy,
    String,
>)
    ensures
        ({
            let s = m@.strategy_for(str_view(strategy_id));
            if s.serialize == SerializeRule::Passthrough {
                r matches Ok(got) && got@ == s
            } else {
                r matches Err(t) && t@ == unsupported_text(m@.id, s)
            }
        }),
{
    let strategy = strategy_of(m, strategy_id);
    if loader_for(&strategy).is_none() {
        let id: String = EndpointId::new(m.kind, m.endpoint_id).to_text();
        let a: String = join3(
            "内核不支持序列化规则 ",
            serialize_name(strategy.serialize),
            "（端点 ",
        );
        let b: String = join3(a.as_str(), id.as_str(), " 策略 ");
        return Err(
            join3(b.as_str(), strategy.strategy_id.as_str(), "）——协商拒绝，不静默降级"),
        );
    }
    Ok(strategy)
}

/// The transports of a list of preferences.
pub open spec fn transports_of(v: Seq<TransportPreference>) -> Seq<TransportId> {
    v.map_values(|t: TransportPreference| t.transport)
}

fn transport_list(v: &Vec<TransportPreference>) -> (r: Vec<TransportId>)
    ensures
        r@ == transports_of(v@),
{
    let mut r: Vec<TransportId> = Vec::new();
    let mut i: usize = 0;
    while i < v.len()
        invariant
            i <= v@.len(),
            r@.len() == i,
            forall|j: int| 0 <= j < i ==> #[trigger] r@[j] == v@[j].transport,
        decreases v.len() - i,
    {
        r.push(v[i].transport);
        i += 1;
    }
    assert(r@ =~= transports_of(v@));
    r
}

/// The ports of the resident relay, as they are granted.
pub open spec fn relay_of<P: AuthPolicy, D: DataPlaneBackend>(k: KernelModel<P, D>) -> Option<
    RelayAddr,
> {
    match k.anchor {
        Some(a) => Some(
            RelayAddr { ws_port: a.port, srt_port: a.srt_port, quic_port: a.quic_port },
        ),
        None => None,
    }
}

/// What is granted on an endpoint: its stream is fetched from the relay of this node, and no token
/// is needed for that.
pub open spec fn endpoint_grant<P: AuthPolicy, D: DataPlaneBackend>(
    k: KernelModel<P, D>,
    m: ManifestModel,
    trusted: bool,
    stream_id: Seq<char>,
    strategy: StrategyModel,
) -> GrantModel {
    GrantModel {
        view: TokenViewModel { token: ""@, stream_id, pin: ""@, expires_at: 0 },
        trusted,
        delivery: Some(Delivery::Pull),
        transports: Some(transports_of(m.transports)),
        transport_profile: Some(m.transport_profile),
        pick_rule: Some(m.pick_rule),
        strategy: Some(strategy),
        relay: relay_of(k),
    }
}

/// What is granted to a device that pushes: a token, and nothing about an endpoint.
pub open spec fn token_grant(view: TokenViewModel, trusted: bool) -> GrantModel {
    GrantModel {
        view,
        trusted,
        delivery: None,
        transports: None,
        transport_profile: None,
        pick_rule: None,
        strategy: None,
        relay: None,
    }
}

/// Whether a text says that the data plane did not let a stream in.
pub open spec fn not_admitted(t: Seq<char>) -> bool {
    exists|said: Seq<char>| t == #[trigger] ("数据面操作失败: "@ + ("预授权失败: "@ + said))
}

/// What a request for an endpoint comes to. An endpoint that is being shared is granted over the
/// stream that is there; otherwise a session is made sure of, under the name that the endpoint, its
/// profile and its pick rule give.
pub open spec fn endpoint_granted<P: AuthPolicy, D: DataPlaneBackend>(
    pre: KernelModel<P, D>,
    post: KernelModel<P, D>,
    m: ManifestModel,
    trusted: bool,
    wanted: Option<Seq<char>>,
    title: Seq<char>,
    r: Result<ShareGrant, String>,
) -> bool {
    let s = m.strategy_for(wanted);
    let supported = s.serialize == SerializeRule::Passthrough;
    if shared(pre.shares, m.id) {
        &&& post == pre
        &&& if supported {
            r matches Ok(g) && pre.shares.dom().contains(g.view.stream_id@)
                && pre.shares[g.view.stream_id@].endpoint_id == m.id && g@ == endpoint_grant(
                pre,
                m,
                trusted,
                g.view.stream_id@,
                s,
            )
        } else {
            r matches Err(t) && t@ == unsupported_text(m.id, s)
        }
    } else {
        let sid = stream_id_of(m.id, m.transport_profile, m.pick_rule);
        &&& post == (KernelModel { control: post.control, ..pre })
        &&& session_ensured(&pre.control, &post.control, sid, title)
        &&& if !admitted(&pre.control, sid) {
            r matches Err(t) && not_admitted(t@)
        } else if supported {
            r matches Ok(g) && g@ == endpoint_grant(pre, m, trusted, sid, s)
        } else {
            r matches Err(t) && t@ == unsupported_text(m.id, s)
        }
    }
}

/// What a request for a token comes to: a new session of this node, and a token for it.
pub open spec fn push_granted<P: AuthPolicy, D: DataPlaneBackend>(
    pre: KernelModel<P, D>,
    post: KernelModel<P, D>,
    trusted: bool,
    media: Seq<MediaKind>,
    title: Seq<char>,
    now: u64,
    r: Result<ShareGrant, String>,
) -> bool {
    let id = "sess-"@ + hex(pre.control.next_id as nat);
    &&& post == (KernelModel { control: post.control, ..pre })
    &&& if pre.control.data_plane matches Some(d) ==> d.admits(id) {
        r matches Ok(g) && ({
            let t = new_token(id, g.view.pin@, DEFAULT_GRANT_TTL_SECS, now, media);
            &&& token_issued(&pre.control, &post.control, title, t, now)
            &&& g@ == token_grant(
                TokenViewModel {
                    token: t.text(),
                    stream_id: id,
                    pin: t.pin,
                    expires_at: t.expires_at,
                },
                trusted,
            )
        })
    } else {
        &&& token_refused(&pre.control, &post.control)
        &&& r matches Err(t) && not_admitted(t@)
    }
}

/// What granting a request comes to.
pub open spec fn grant_composed<P: AuthPolicy, D: DataPlaneBackend>(
    pre: KernelModel<P, D>,
    post: KernelModel<P, D>,
    endpoint: Option<ManifestModel>,
    trusted: bool,
    wanted: Option<Seq<char>>,
    media: Seq<MediaKind>,
    title: Seq<char>,
    now: u64,
    r: Result<ShareGrant, String>,
) -> bool {
    match endpoint {
        Some(m) => endpoint_granted(pre, post, m, trusted, wanted, title, r),
        None => push_granted(pre, post, trusted, media, title, now, r),
    }
}

fn endpoint_reply<P: AuthPolicy, D: DataPlaneBackend>(
    app: &Kernel<P, D>,
    m: &EndpointManifest,
    trusted: bool,
    stream_id: String,
    strategy: EndpointStrategy,
) -> (r: ShareGrant)
    ensures
        r@ == endpoint_grant(app@, m@, trusted, stream_id@, strategy@),
{
    let relay: Option<RelayAddr> = match app.relay_ports() {
        Some(p) => Some(RelayAddr { ws_port: p.0, srt_port: p.1, quic_port: p.2 }),
        None => None,
    };
    let r = ShareGrant {
        view: ShareTokenView {
            token: "".to_owned(),
            stream_id,
            pin: "".to_owned(),
            expires_at: 0,
        },
        trusted,
        delivery: Some(Delivery::Pull),
        transports: Some(transport_list(&m.transports)),
        transport_profile: Some(m.transport_profile),
        pick_rule: Some(m.pick_rule),
        strategy: Some(strategy),
        relay,
    };
    r
}

proof fn lemma_not_admitted(e: Error)
    requires
        plane_error(e, "预授权失败: "@),
    ensures
        not_admitted(e.text()),
{
    let t = e->DataPlane_0;
    let said = choose|said: Seq<char>| t@ == #[trigger] ("预授权失败: "@ + said);
    assert(e.text() == "数据面操作失败: "@ + ("预授权失败: "@ + said));
}

/// Grants a request. Data is always fetched by the subscriber, whatever direction it asked for.
pub fn compose_grant<P: AuthPolicy, D: DataPlaneBackend>(
    app: &mut Kernel<P, D>,
    store: &TrustStore,
    device_id: &str,
    endpoint: Option<&EndpointManifest>,
    strategy_id: Option<&str>,
    delivery_mode: Option<Delivery>,
    media: Vec<MediaKind>,
    title: String,
    now: u64,
) -> (r: Result<ShareGrant, String>)
    requires
        old(app).wf(),
        store.wf(),
    ensures
        final(app).wf(),
        grant_composed(
            old(app)@,
            final(app)@,
            manifest_of(endpoint),
            store@.dom().contains(device_id@),
            str_view(strategy_id),
            media@,
            title@,
            now,
            r,
        ),
{
    let _ = delivery_mode;
    let trusted: bool = store.is_trusted(device_id);
    let ghost pre = app@;
    match endpoint {
        None => {
            match app.control.issue_share_token_for(
                title,
                media,
                Some(DEFAULT_GRANT_TTL_SECS),
                now,
            ) {
                Err(e) => {
                    proof {
                        lemma_not_admitted(e);
                    }
                    assert(app@ =~= KernelModel { control: app@.control, ..pre });
                    Err(e.to_user_string())
                },
                Ok(view) => {
                    assert(app@ =~= KernelModel { control: app@.control, ..pre });
                    Ok(
                        ShareGrant {
                            view,
                            trusted,
                            delivery: None,
                            transports: None,
                            transport_profile: None,
                            pick_rule: None,
                            strategy: None,
                            relay: None,
                        },
                    )
                },
            }
        },
        Some(m) => {
            let id: EndpointId = EndpointId::new(m.kind, m.endpoint_id);
            match app.active_share_by_endpoint(id) {
                Some(p) => {
                    assert(shared(pre.shares, id)) by {
                        assert(pre.shares.dom().contains(p.0@));
                    }
                    match checked_strategy(m, strategy_id) {
                        Err(t) => Err(t),
                        Ok(s) => Ok(endpoint_reply(app, m, trusted, p.0, s)),
                    }
                },
                None => {
                    let sid: String = derive_stream_id(id, m.transport_profile, m.pick_rule);
                    let mut sinks: Vec<String> = Vec::new();
                    sinks.push("local".to_owned());
                    let prefs = SessionPrefs {
                        profile: ReliabilityProfile::Lossy,
                        preferred_transport: None,
                        access_code: None,
                        title,
                    };
                    assert(texts(sinks@) =~= seq!["local"@]);
                    assert(new_session(
                        pre.control.graph@,
                        sid@,
                        "local"@,
                        texts(sinks@),
                        &prefs,
                    ) =~= local_session(pre.control.graph@, sid@, title@));
                    match app.control.ensure_session_with_id(sid.as_str(), "local", &sinks, &prefs) {
                        Err(e) => {
                            proof {
                                lemma_not_admitted(e);
                            }
                            assert(app@ =~= KernelModel { control: app@.control, ..pre });
                            Err(e.to_user_string())
                        },
                        Ok(_) => {
                            assert(app@ =~= KernelModel { control: app@.control, ..pre });
                            match checked_strategy(m, strategy_id) {
                                Err(t) => Err(t),
                                Ok(s) => Ok(endpoint_reply(app, m, trusted, sid, s)),
                            }
                        },
                    }
                },
            }
        },
    }
}

/// An endpoint that is to start sharing, and the check that is to be made later.
pub struct ShareStart {
    pub ctx: SubscribeCtx,
    pub check: ShareCheck,
    /// Whether this node has the endpoint.
    pub known: bool,
}

/// Whether a grant makes an endpoint start sharing: it is one on an endpoint that is not being
/// shared yet.
pub open spec fn starts_share<P: AuthPolicy, D: DataPlaneBackend>(
    k: KernelModel<P, D>,
    endpoint_id: Option<EndpointId>,
    grant: GrantModel,
) -> bool {
    endpoint_id is Some && grant.delivery is Some && !shared(k.shares, endpoint_id->0)
}

/// What an endpoint is told when a grant makes it start sharing.
pub open spec fn start_ctx(grant: GrantModel, subscriber: Seq<char>) -> CtxModel {
    CtxModel {
        subscriber,
        delivery: grant.delivery->0,
        stream_id: grant.view.stream_id,
        transport_profile: match grant.transport_profile {
            Some(p) => p,
            None => ReliabilityProfile::Lossy,
        },
        strategy: match grant.strategy {
            Some(s) => s,
            None => EndpointStrategy::plain(
                match grant.pick_rule {
                    Some(p) => p,
                    None => PickRule::Realtime,
                },
            ),
        },
        relay_addr: None,
        share_token: None,
    }
}

/// What a grant sets going: the share is noted, and the endpoint is to start.
pub open spec fn share_started<P: AuthPolicy, D: DataPlaneBackend>(
    pre: KernelModel<P, D>,
    post: KernelModel<P, D>,
    endpoint_id: Option<EndpointId>,
    grant: GrantModel,
    subscriber: Seq<char>,
    now: u64,
    r: Option<ShareStart>,
) -> bool {
    if starts_share(pre, endpoint_id, grant) {
        let id = endpoint_id->0;
        &&& post == (KernelModel {
            shares: pre.shares.insert(
                grant.view.stream_id,
                ShareRecord { endpoint_id: id, delivery: grant.delivery->0 },
            ),
            registry: pre.registry.activated(id, now),
            ..pre
        })
        &&& r matches Some(s) && s.ctx@ == start_ctx(grant, subscriber) && s.check.stream_id@
            == grant.view.stream_id && s.check.delay_ms == pre.idle_delay_ms && s.known
            == pre.registry.mounts.dom().contains(pre.registry.own(id))
    } else {
        post == pre && r is None
    }
}

/// Has an endpoint start sharing after a grant, unless it shares already.
pub fn notify_subscribed<P: AuthPolicy, D: DataPlaneBackend>(
    app: &mut Kernel<P, D>,
    endpoint_id: Option<EndpointId>,
    grant: &ShareGrant,
    subscriber: &str,
    now: u64,
) -> (r: Option<ShareStart>)
    requires
        old(app).wf(),
    ensures
        final(app).wf(),
        share_started(
            old(app)@,
            final(app)@,
            endpoint_id,
            grant@,
            subscriber@,
            now,
            r,
        ),
{
    let id: EndpointId = match endpoint_id {
        Some(id) => id,
        None => {
            return None;
        },
    };
    let delivery: Delivery = match grant.delivery {
        Some(d) => d,
        None => {
            return None;
        },
    };
    match app.active_share_by_endpoint(id) {
        Some(p) => {
            assert(app@.shares.dom().contains(p.0@));
            return None;
        },
        None => {},
    }
    let strategy: EndpointStrategy = match &grant.strategy {
        Some(s) => s.clone(),
        None => EndpointStrategy::passthrough(
            match grant.pick_rule {
                Some(p) => p,
                None => PickRule::Realtime,
            },
        ),
    };
    let ctx = SubscribeCtx {
        subscriber: subscriber.to_owned(),
        delivery,
        stream_id: grant.view.stream_id.clone(),
        transport_profile: match grant.transport_profile {
            Some(p) => p,
            None => ReliabilityProfile::Lossy,
        },
        strategy,
        relay_addr: None,
        share_token: None,
    };
    let (check, known) = app.on_subscribed(id, grant.view.stream_id.as_str(), delivery, now);
    Some(ShareStart { ctx, check, known })
}

/// A device that was remembered is granted what has to be confirmed, without being asked again.
pub proof fn law_remembered_device_is_granted(
    before: Map<Seq<char>, TrustedModel>,
    device: Seq<char>,
    name: Seq<char>,
    now: u64,
    visibility: Option<VisibilityModel>,
)
    requires
        visibility matches Some(v) ==> !(v is Private),
    ensures
        granted_at_once(remembered(before, device, name, now), visibility, device),
{
}

/// Remembering a device changes nothing for any other device.
pub proof fn law_remembering_is_personal(
    before: Map<Seq<char>, TrustedModel>,
    device: Seq<char>,
    name: Seq<char>,
    now: u64,
    visibility: Option<VisibilityModel>,
    other: Seq<char>,
)
    requires
        other != device,
    ensures
        granted_at_once(remembered(before, device, name, now), visibility, other)
            == granted_at_once(before, visibility, other),
{
}

/// Two subscribers of one endpoint get the same stream, when the first one's grant has set the
/// share going.
pub proof fn law_second_subscriber_gets_the_same_stream<P: AuthPolicy, D: DataPlaneBackend>(
    k0: KernelModel<P, D>,
    k1: KernelModel<P, D>,
    k2: KernelModel<P, D>,
    k3: KernelModel<P, D>,
    m: ManifestModel,
    trusted1: bool,
    trusted2: bool,
    wanted1: Option<Seq<char>>,
    wanted2: Option<Seq<char>>,
    title1: Seq<char>,
    title2: Seq<char>,
    subscriber: Seq<char>,
    now: u64,
    r1: Result<ShareGrant, String>,
    started: Option<ShareStart>,
    r2: Result<ShareGrant, String>,
)
    requires
        !shared(k0.shares, m.id),
        endpoint_granted(k0, k1, m, trusted1, wanted1, title1, r1),
        r1 is Ok,
        share_started(k1, k2, Some(m.id), r1->Ok_0@, subscriber, now, started),
        endpoint_granted(k2, k3, m, trusted2, wanted2, title2, r2),
        r2 is Ok,
    ensures
        r2->Ok_0@.view.stream_id == r1->Ok_0@.view.stream_id,
        k3 == k2,
{
    let sid = r1->Ok_0@.view.stream_id;
    assert(k1.shares == k0.shares);
    assert(k2.shares.dom().contains(sid));
    assert(shared(k2.shares, m.id));
    let got = r2->Ok_0@.view.stream_id;
    if got != sid {
        assert(k0.shares.dom().contains(got));
        assert(k0.shares[got].endpoint_id == m.id);
        assert(shared(k0.shares, m.id));
    }
}

/// Whatever direction an endpoint declares and a subscriber asks for, what is granted on an endpoint
/// is fetched by the subscriber, and needs no token.
pub proof fn law_endpoint_data_is_fetched<P: AuthPolicy, D: DataPlaneBackend>(
    pre: KernelModel<P, D>,
    post: KernelModel<P, D>,
    m: ManifestModel,
    trusted: bool,
    wanted: Option<Seq<char>>,
    title: Seq<char>,
    g: ShareGrant,
)
    requires
        endpoint_granted(pre, post, m, trusted, wanted, title, Ok(g)),
    ensures
        g@.delivery == Some(Delivery::Pull),
        g@.view.token == ""@,
        g@.strategy == Some(m.strategy_for(wanted)),
        m.strategy_for(wanted).serialize == SerializeRule::Passthrough,
{
}

/// A subscriber names the granted stream without being told: what the directory of this node says
/// about an endpoint gives the same name at the subscriber.
pub proof fn law_subscriber_derives_the_granted_stream<P: AuthPolicy, D: DataPlaneBackend>(
    pre: KernelModel<P, D>,
    post: KernelModel<P, D>,
    e: EntryModel,
    trusted: bool,
    wanted: Option<Seq<char>>,
    title: Seq<char>,
    g: ShareGrant,
)
    requires
        e.strategies.len() > 0,
        !shared(pre.shares, e.id),
        endpoint_granted(pre, post, e.manifest(), trusted, wanted, title, Ok(g)),
    ensures
        ({
            let seen = remote_entry(e.manifest());
            g@.view.stream_id == stream_id_of(
                seen.id,
                seen.transport_profile,
                seen.strategies[0].pick,
            )
        }),
{
}

/// A grant on an endpoint that is not being shared leaves a session of the stream's name behind, so
/// that the relay lets the stream in; a second grant adds no session.
pub proof fn law_granted_stream_has_a_session<P: AuthPolicy, D: DataPlaneBackend>(
    k0: KernelModel<P, D>,
    k1: KernelModel<P, D>,
    k2: KernelModel<P, D>,
    m: ManifestModel,
    trusted1: bool,
    trusted2: bool,
    wanted1: Option<Seq<char>>,
    wanted2: Option<Seq<char>>,
    title1: Seq<char>,
    title2: Seq<char>,
    g1: ShareGrant,
    r2: Result<ShareGrant, String>,
)
    requires
        !shared(k0.shares, m.id),
        endpoint_granted(k0, k1, m, trusted1, wanted1, title1, Ok(g1)),
        endpoint_granted(k1, k2, m, trusted2, wanted2, title2, r2),
    ensures
        k1.control.sessions@.dom().contains(g1@.view.stream_id),
        k2 == k1,
        r2 matches Ok(g2) ==> g2@.view.stream_id == g1@.view.stream_id,
{
    assert(k1.shares == k0.shares);
    assert(k2 =~= k1);
}

/// A grant on an endpoint names the relay of this node exactly when it runs, with the ports at which
/// it listens.
pub proof fn law_grant_names_the_running_relay<P: AuthPolicy, D: DataPlaneBackend>(
    app: &mut Kernel<P, D>,
    store: &TrustStore,
    device_id: &str,
    m: &EndpointManifest,
    strategy_id: Option<&str>,
    delivery_mode: Option<Delivery>,
    media: Vec<MediaKind>,
    title: String,
    now: u64,
    g: ShareGrant,
)
    requires
        call_ensures(
            compose_grant::<P, D>,
            (
                app,
                store,
                device_id,
                Some(m),
                strategy_id,
                delivery_mode,
                media,
                title,
                now,
            ),
            Ok::<ShareGrant, String>(g),
        ),
    ensures
        g.relay is Some <==> old(app).anchor is Some,
        old(app).anchor matches Some(a) ==> (g.relay matches Some(x) && x.ws_port == a.port
            && x.srt_port == a.srt_port && x.quic_port == a.quic_port),
{
}

/// A grant on an endpoint says how its data travels: by the transports of the endpoint in its order
/// of preference, with its profile and pick rule, fetched by the subscriber, and without a token. It
/// says that the device is trusted exactly when it is.
pub proof fn law_grant_says_how_data_travels<P: AuthPolicy, D: DataPlaneBackend>(
    app: &mut Kernel<P, D>,
    store: &TrustStore,
    device_id: &str,
    m: &EndpointManifest,
    strategy_id: Option<&str>,
    delivery_mode: Option<Delivery>,
    media: Vec<MediaKind>,
    title: String,
    now: u64,
    g: ShareGrant,
    trusted: bool,
)
    requires
        call_ensures(
            compose_grant::<P, D>,
            (
                app,
                store,
                device_id,
                Some(m),
                strategy_id,
                delivery_mode,
                media,
                title,
                now,
            ),
            Ok::<ShareGrant, String>(g),
        ),
        call_ensures(TrustStore::is_trusted, (store, device_id), trusted),
    ensures
        g.transports matches Some(v) && v@.len() == m.transports@.len() && forall|i: int|
            0 <= i < v@.len() ==> #[trigger] v@[i] == m.transports@[i].transport,
        g.transport_profile == Some(m.transport_profile),
        g.pick_rule == Some(m.pick_rule),
        g.delivery == Some(Delivery::Pull),
        g.view.token@.len() == 0,
        g.view.pin@.len() == 0,
        g.view.expires_at == 0,
        g.trusted == trusted,
{
    reveal_strlit("");
    assert(g@.transports == Some(transports_of(m.transports@)));
    let v = g.transports->0;
    assert(v@ == transports_of(m.transports@));
}

/// A subscriber gets the strategy that it asked for, when the endpoint has it: the one at the first
/// place that bears its name.
pub proof fn law_wanted_strategy_is_granted<P: AuthPolicy, D: DataPlaneBackend>(
    app: &mut Kernel<P, D>,
    store: &TrustStore,
    device_id: &str,
    m: &EndpointManifest,
    wanted: &str,
    delivery_mode: Option<Delivery>,
    media: Vec<MediaKind>,
    title: String,
    now: u64,
    g: ShareGrant,
    i: int,
)
    requires
        call_ensures(
            compose_grant::<P, D>,
            (
                app,
                store,
                device_id,
                Some(m),
                Some(wanted),
                delivery_mode,
                media,
                title,
                now,
            ),
            Ok::<ShareGrant, String>(g),
        ),
        0 <= i < m.strategies@.len(),
        m.strategies@[i].strategy_id@ == wanted@,
        forall|j: int| 0 <= j < i ==> (#[trigger] m.strategies@[j]).strategy_id@ != wanted@,
    ensures
        g.strategy matches Some(s) && s.strategy_id@ == wanted@ && s@ == m.strategies@[i]@,
        m.strategies@[i].serialize is Passthrough,
{
    lemma_first_with_id(m@.strategies, wanted@, i);
}

/// Without a strategy asked for, or with one that the endpoint does not have, a subscriber gets the
/// first strategy of the endpoint.
pub proof fn law_first_strategy_is_the_default<P: AuthPolicy, D: DataPlaneBackend>(
    app: &mut Kernel<P, D>,
    store: &TrustStore,
    device_id: &str,
    m: &EndpointManifest,
    strategy_id: Option<&str>,
    delivery_mode: Option<Delivery>,
    media: Vec<MediaKind>,
    title: String,
    now: u64,
    g: ShareGrant,
)
    requires
        call_ensures(
            compose_grant::<P, D>,
            (
                app,
                store,
                device_id,
                Some(m),
                strategy_id,
                delivery_mode,
                media,
                title,
                now,
            ),
            Ok::<ShareGrant, String>(g),
        ),
        m.strategies@.len() > 0,
        strategy_id matches Some(w) ==> forall|j: int|
            0 <= j < m.strategies@.len() ==> (#[trigger] m.strategies@[j]).strategy_id@ != w@,
    ensures
        g.strategy matches Some(s) && s@ == m.strategies@[0]@,
        m.strategies@[0].serialize is Passthrough,
{
    if strategy_id is Some {
        lemma_none_with_id(m@.strategies, strategy_id->0@);
    }
}

proof fn lemma_first_with_id(v: Seq<StrategyModel>, wanted: Seq<char>, i: int)
    requires
        0 <= i < v.len(),
        v[i].strategy_id == wanted,
        forall|j: int| 0 <= j < i ==> (#[trigger] v[j]).strategy_id != wanted,
    ensures
        first_with_id(v, Some(wanted)) == Some(v[i]),
    decreases v.len(),
{
    if i > 0 {
        assert forall|j: int| 0 <= j < i - 1 implies (#[trigger] v.drop_first()[j]).strategy_id
            != wanted by {
            assert(v.drop_first()[j] == v[j + 1]);
        }
        assert(v[0].strategy_id != wanted);
        lemma_first_with_id(v.drop_first(), wanted, i - 1);
    }
}

proof fn lemma_none_with_id(v: Seq<StrategyModel>, wanted: Seq<char>)
    requires
        forall|j: int| 0 <= j < v.len() ==> (#[trigger] v[j]).strategy_id != wanted,
    ensures
        first_with_id(v, Some(wanted)) is None,
    decreases v.len(),
{
    if v.len() > 0 {
        assert(v[0].strategy_id != wanted);
        assert forall|j: int| 0 <= j < v.drop_first().len() implies (
        #[trigger] v.drop_first()[j]).strategy_id != wanted by {
            assert(v.drop_first()[j] == v[j + 1]);
        }
        lemma_none_with_id(v.drop_first(), wanted);
    }
}

/// An endpoint that is open to a subscriber is granted: as long as the data plane lets its stream in
/// and its strategies are packed in a way that is implemented, a request does not fail.
pub proof fn law_endpoint_is_granted<P: AuthPolicy, D: DataPlaneBackend>(
    app: &mut Kernel<P, D>,
    store: &TrustStore,
    device_id: &str,
    m: &EndpointManifest,
    strategy_id: Option<&str>,
    delivery_mode: Option<Delivery>,
    media: Vec<MediaKind>,
    title: String,
    now: u64,
    r: Result<ShareGrant, String>,
)
    requires
        call_ensures(
            compose_grant::<P, D>,
            (
                app,
                store,
                device_id,
                Some(m),
                strategy_id,
                delivery_mode,
                media,
                title,
                now,
            ),
            r,
        ),
        old(app).control.data_plane is None,
        forall|i: int|
            0 <= i < m.strategies@.len() ==> (#[trigger] m.strategies@[i]).serialize
                is Passthrough,
    ensures
        r matches Ok(g) && ({
            let sid = g.view.stream_id@;
            ||| old(app).active_shares@.dom().contains(sid) && old(app).active_shares@[sid].endpoint_id
                == (EndpointId { kind: m.kind, id: m.endpoint_id })
            ||| final(app).control.sessions@.dom().contains(sid)
        }),
{
    lemma_found_is_listed(m@.strategies, str_view(strategy_id));
    match first_with_id(m@.strategies, str_view(strategy_id)) {
        Some(s) => {
            let i = choose|i: int| 0 <= i < m@.strategies.len() && #[trigger] m@.strategies[i] == s;
            assert(m.strategies@[i]@ == s);
        },
        None => {
            if m.strategies@.len() > 0 {
                assert(m.strategies@[0]@ == m@.strategies[0]);
            }
        },
    }
}

proof fn lemma_found_is_listed(v: Seq<StrategyModel>, wanted: Option<Seq<char>>)
    ensures
        first_with_id(v, wanted) matches Some(s) ==> exists|i: int|
            0 <= i < v.len() && #[trigger] v[i] == s,
    decreases v.len(),
{
    if v.len() > 0 && wanted is Some {
        lemma_found_is_listed(v.drop_first(), wanted);
        if v[0].strategy_id == wanted->0 {
            assert(v[0] == v[0]);
        } else if first_with_id(v.drop_first(), wanted) is Some {
            let s = first_with_id(v.drop_first(), wanted)->0;
            let i = choose|i: int|
                0 <= i < v.drop_first().len() && #[trigger] v.drop_first()[i] == s;
            assert(v[i + 1] == s);
        }
    }
}

/// Who asks without an endpoint gets a token for a session of its own, which is valid for ten
/// minutes and for the media that were asked for; the grant says nothing about an endpoint or a
/// relay.
pub proof fn law_token_grant_opens_a_session<P: AuthPolicy, D: DataPlaneBackend>(
    app: &mut Kernel<P, D>,
    store: &TrustStore,
    device_id: &str,
    strategy_id: Option<&str>,
    delivery_mode: Option<Delivery>,
    media: Vec<MediaKind>,
    title: String,
    now: u64,
    r: Result<ShareGrant, String>,
    trusted: bool,
)
    requires
        call_ensures(
            compose_grant::<P, D>,
            (
                app,
                store,
                device_id,
                None,
                strategy_id,
                delivery_mode,
                media,
                title,
                now,
            ),
            r,
        ),
        call_ensures(TrustStore::is_trusted, (store, device_id), trusted),
        old(app).control.data_plane is None,
        now + 600 <= u64::MAX,
    ensures
        r matches Ok(g) && ({
            let sid = g.view.stream_id@;
            let sessions = final(app).control.sessions@;
            let tokens = final(app).control.share_tokens@;
            &&& sessions.dom().contains(sid)
            &&& sessions[sid].title == title@
            &&& tokens.dom().contains(sid)
            &&& tokens[sid].media == media@
            &&& tokens[sid].pin == g.view.pin@
            &&& g.view.expires_at == now + 600
            &&& tokens[sid].expires_at == now + 600
            &&& g.trusted == trusted
            &&& g.relay is None
            &&& g.delivery is None
            &&& g.transports is None
            &&& g.transport_profile is None
            &&& g.pick_rule is None
            &&& g.strategy is None
        }),
{
}

/// What a grant sets going is noted and told to the endpoint as it was granted: the stream, the
/// device that subscribes, the direction, the profile and the strategy. The share is looked at again
/// after the idle delay.
pub proof fn law_share_starts_as_granted<P: AuthPolicy, D: DataPlaneBackend>(
    app: &mut Kernel<P, D>,
    endpoint_id: EndpointId,
    g: &ShareGrant,
    subscriber: &str,
    now: u64,
    r: Option<ShareStart>,
)
    requires
        call_ensures(
            notify_subscribed::<P, D>,
            (app, Some(endpoint_id), g, subscriber, now),
            r,
        ),
        g.delivery is Some,
        g.transport_profile is Some,
        g.strategy is Some,
        forall|s: Seq<char>| #[trigger]
            old(app).active_shares@.dom().contains(s) ==> old(app).active_shares@[s].endpoint_id
                != endpoint_id,
    ensures
        r matches Some(s) && ({
            &&& s.ctx.stream_id@ == g.view.stream_id@
            &&& s.ctx.subscriber@ == subscriber@
            &&& Some(s.ctx.delivery) == g.delivery
            &&& Some(s.ctx.transport_profile) == g.transport_profile
            &&& s.ctx.strategy@ == g.strategy->0@
            &&& s.ctx.relay_addr is None
            &&& s.ctx.share_token is None
            &&& s.check.stream_id@ == g.view.stream_id@
            &&& s.check.delay_ms == old(app).share_idle_delay_ms
        }),
        final(app).active_shares@.dom() == old(app).active_shares@.dom().insert(
            g.view.stream_id@,
        ),
        final(app).active_shares@[g.view.stream_id@].endpoint_id == endpoint_id,
        Some(final(app).active_shares@[g.view.stream_id@].delivery) == g.delivery,
{
    assert(!shared(app@.shares, endpoint_id));
}

/// An endpoint that is being shared already is not started again.
pub proof fn law_running_share_is_not_started_again<P: AuthPolicy, D: DataPlaneBackend>(
    app: &mut Kernel<P, D>,
    endpoint_id: EndpointId,
    g: &ShareGrant,
    subscriber: &str,
    now: u64,
    r: Option<ShareStart>,
    s: Seq<char>,
)
    requires
        call_ensures(
            notify_subscribed::<P, D>,
            (app, Some(endpoint_id), g, subscriber, now),
            r,
        ),
        old(app).active_shares@.dom().contains(s),
        old(app).active_shares@[s].endpoint_id == endpoint_id,
    ensures
        r is None,
        final(app)@ == old(app)@,
{
    assert(shared(app@.shares, endpoint_id));
}

/// Who gets in: everybody at a public endpoint, those on its list at a private one, and trusted
/// devices wherever the user would have to be asked; the others are refused at a private endpoint and
/// wait for the user elsewhere.
pub proof fn law_visibility_decides_who_gets_in(
    store: &TrustStore,
    m: &EndpointManifest,
    requester: &str,
    r: Decision,
    unnamed: Decision,
    trusted: bool,
)
    requires
        call_ensures(policy_decision, (store, Some(m), requester), r),
        call_ensures(policy_decision, (store, None, requester), unnamed),
        call_ensures(TrustStore::is_trusted, (store, requester), trusted),
    ensures
        m.visibility is Public ==> r is Grant,
        m.visibility is Confirm ==> (trusted ==> r is Grant) && (!trusted ==> r is Pending),
        m.visibility matches Visibility::Private { nodes } ==> {
            &&& (exists|i: int| 0 <= i < nodes@.len() && (#[trigger] nodes@[i])@ == requester@) ==> r is Grant
            &&& (forall|i: int| 0 <= i < nodes@.len() ==> (#[trigger] nodes@[i])@ != requester@) ==> r is Reject
        },
        trusted ==> unnamed is Grant,
        !trusted ==> unnamed is Pending,
{
    if let Visibility::Private { nodes } = m.visibility {
        if exists|i: int| 0 <= i < nodes@.len() && (#[trigger] nodes@[i])@ == requester@ {
            let i = choose|i: int| 0 <= i < nodes@.len() && (#[trigger] nodes@[i])@ == requester@;
            assert(texts(nodes@)[i] == requester@);
        } else {
            if texts(nodes@).contains(requester@) {
                let j = choose|j: int|
                    0 <= j < texts(nodes@).len() && texts(nodes@)[j] == requester@;
                assert(nodes@[j]@ == requester@);
            }
        }
    }
}

/// A strategy of the endpoint that is asked for is the one a subscriber gets, unless it packs its
/// data in a way that is not implemented: then the subscriber is refused.
pub proof fn law_wanted_strategy_is_checked(
    m: &EndpointManifest,
    wanted: &str,
    i: int,
    r: Result<EndpointStrategy, String>,
)
    requires
        call_ensures(checked_strategy, (m, Some(wanted)), r),
        0 <= i < m.strategies@.len(),
        m.strategies@[i].strategy_id@ == wanted@,
        forall|j: int| 0 <= j < i ==> (#[trigger] m.strategies@[j]).strategy_id@ != wanted@,
    ensures
        m.strategies@[i].serialize is Passthrough ==> (r matches Ok(s) && s@ == m.strategies@[i]@),
        !(m.strategies@[i].serialize is Passthrough) ==> r is Err,
{
    lemma_first_with_id(m@.strategies, wanted@, i);
}

} // verus!
