//! The kernel: sessions, endpoints, shares and streams of one node.

use vstd::prelude::*;

use crate::channel::message::opt_view;
use crate::error::Error;
use crate::kernel::auth::{AuthPolicy, PinAuthPolicy};
use crate::kernel::data_plane::DataPlaneBackend;
use crate::kernel::endpoint::manifest::EndpointManifest;
use crate::kernel::endpoint::mounts::{lists, seeded, SeedEndpoint};
use crate::kernel::endpoint::registry::{RegistryModel, UnifiedRegistry};
use crate::kernel::graph::{
    with_capability, CapabilityDescriptor, CapabilityModel, NodeInfo, NodeModel,
};
use crate::kernel::session::SessionModel;
use crate::kernel::session_api::{token_checked, ControlPlane, ShareToken, TokenModel};
use crate::message::{Delivery, EndpointId, RefModel};
use crate::negotiator::trust::{DeviceIdentity, IdentityModel};
use crate::order::sorted;
use crate::platform::Platform;
use crate::receiver::{ReceiveStats, StatsModel};
use crate::table::Table;

pub mod anchor;
pub mod auth;
pub mod data_plane;
pub mod endpoint;
pub mod endpoint_api;
pub mod graph;
pub mod receive;
pub mod session;
pub mod session_api;
pub mod share_service;
pub mod streams;
pub mod subscribe_service;

verus! {

/// An endpoint that is being shared over a stream.
#[derive(Debug, Clone, Copy, PartialEq, Eq, Structural)]
pub struct ShareRecord {
    pub endpoint_id: EndpointId,
    pub delivery: Delivery,
}

/// A stream that this node pushes.
#[derive(Debug)]
pub struct RunningStream {
    pub relay_port: u16,
    pub title: String,
    pub stream_id: String,
    /// Unix time in seconds.
    pub started_at: u64,
}

/// What a pushed stream is, as a mathematical value.
pub struct RunningModel {
    pub relay_port: u16,
    pub title: Seq<char>,
    pub stream_id: Seq<char>,
    pub started_at: u64,
}

impl View for RunningStream {
    type V = RunningModel;

    open spec fn view(&self) -> RunningModel {
        RunningModel {
            relay_port: self.relay_port,
            title: self.title@,
            stream_id: self.stream_id@,
            started_at: self.started_at,
        }
    }
}

/// The view of an optional pushed stream.
pub open spec fn running_view(s: Option<RunningStream>) -> Option<RunningModel> {
    match s {
        Some(x) => Some(x@),
        None => None,
    }
}

/// The resident relay of this node.
#[derive(Debug)]
pub struct LocalAnchor {
    pub port: u16,
    pub srt_port: Option<u16>,
    pub quic_port: Option<u16>,
    pub hostname: String,
    /// Whether the relay is being announced.
    pub announced: bool,
}

/// What a resident relay is, as a mathematical value.
pub struct AnchorModel {
    pub port: u16,
    pub srt_port: Option<u16>,
    pub quic_port: Option<u16>,
    pub hostname: Seq<char>,
    pub announced: bool,
}

impl View for LocalAnchor {
    type V = AnchorModel;

    open spec fn view(&self) -> AnchorModel {
        AnchorModel {
            port: self.port,
            srt_port: self.srt_port,
            quic_port: self.quic_port,
            hostname: self.hostname@,
            announced: self.announced,
        }
    }
}

/// What is known about a stream that is being received.
#[derive(Debug)]
pub struct ReceiveLinkMeta {
    /// The node that shares; empty when it is not known.
    pub node_id: String,
    pub endpoint_id: Option<EndpointId>,
    pub stream_id: Option<String>,
}

/// What is known about a received stream, as a mathematical value.
pub struct LinkMetaModel {
    pub node_id: Seq<char>,
    pub endpoint_id: Option<EndpointId>,
    pub stream_id: Option<Seq<char>>,
}

impl View for ReceiveLinkMeta {
    type V = LinkMetaModel;

    open spec fn view(&self) -> LinkMetaModel {
        LinkMetaModel {
            node_id: self.node_id@,
            endpoint_id: self.endpoint_id,
            stream_id: opt_view(self.stream_id),
        }
    }
}

/// What is shown about the program.
#[derive(Debug)]
pub struct AppInfo {
    pub version: String,
    pub platform: String,
    pub ffmpeg: bool,
    pub ips: Vec<String>,
    pub node_id: String,
}

/// How long a share that nobody watches is kept, in milliseconds.
pub const SHARE_STOP_DELAY_MS: u64 = 4000;

/// How long a new share waits for its first watcher, in milliseconds.
pub const SHARE_IDLE_DELAY_MS: u64 = 10000;

/// The kernel of one node.
pub struct Kernel<P: AuthPolicy, D: DataPlaneBackend> {
    /// Nodes, sessions, access codes, tokens and the data plane.
    pub control: ControlPlane<P, D>,
    /// Nodes and endpoints.
    pub registry: UnifiedRegistry,
    /// The endpoints that are being shared, by stream.
    pub active_shares: Table<String, ShareRecord>,
    /// The streams that are being pushed.
    pub engines: Table<String, RunningStream>,
    /// The resident relay, once there is one.
    pub anchor: Option<LocalAnchor>,
    /// Whether other nodes may find this one.
    pub discoverable: bool,
    /// What the capture of this platform can do, once there is one.
    pub backend: Option<CapabilityDescriptor>,
    /// The streams that are being received, by link.
    pub receivers: Table<String, ReceiveStats>,
    /// What is known about the received streams, by link.
    pub receive_link_meta: Table<String, ReceiveLinkMeta>,
    /// The number of the last link that was given out.
    pub next_link_id: u32,
    /// The number of the next request for access that waits for the user.
    pub next_pending: u64,
    pub identity: Option<DeviceIdentity>,
    pub platform: Platform,
    pub share_stop_delay_ms: u64,
    pub share_idle_delay_ms: u64,
}

/// What a kernel is, as a mathematical value.
#[verifier::ext_equal]
pub struct KernelModel<P: AuthPolicy, D: DataPlaneBackend> {
    pub control: ControlPlane<P, D>,
    pub registry: RegistryModel,
    pub shares: Map<Seq<char>, ShareRecord>,
    pub engines: Map<Seq<char>, RunningModel>,
    pub anchor: Option<AnchorModel>,
    pub discoverable: bool,
    pub backend: Option<CapabilityModel>,
    pub receivers: Map<Seq<char>, StatsModel>,
    pub links: Map<Seq<char>, LinkMetaModel>,
    pub next_link: u32,
    pub next_pending: u64,
    pub identity: Option<IdentityModel>,
    pub platform: Platform,
    pub stop_delay_ms: u64,
    pub idle_delay_ms: u64,
}

/// The models of the pushed streams.
pub open spec fn running_models(m: Map<Seq<char>, RunningStream>) -> Map<Seq<char>, RunningModel> {
    m.map_values(|s: RunningStream| s@)
}

/// The models of the received streams.
pub open spec fn stats_models(m: Map<Seq<char>, ReceiveStats>) -> Map<Seq<char>, StatsModel> {
    m.map_values(|s: ReceiveStats| s@)
}

/// The models of what is known about the received streams.
pub open spec fn meta_models(m: Map<Seq<char>, ReceiveLinkMeta>) -> Map<Seq<char>, LinkMetaModel> {
    m.map_values(|s: ReceiveLinkMeta| s@)
}

impl<P: AuthPolicy, D: DataPlaneBackend> View for Kernel<P, D> {
    type V = KernelModel<P, D>;

    open spec fn view(&self) -> KernelModel<P, D> {
        KernelModel {
            control: self.control,
            registry: self.registry@,
            shares: self.active_shares@,
            engines: running_models(self.engines@),
            anchor: match self.anchor {
                Some(a) => Some(a@),
                None => None,
            },
            discoverable: self.discoverable,
            backend: match self.backend {
                Some(b) => Some(b@),
                None => None,
            },
            receivers: stats_models(self.receivers@),
            links: meta_models(self.receive_link_meta@),
            next_link: self.next_link_id,
            next_pending: self.next_pending,
            identity: match self.identity {
                Some(i) => Some(i@),
                None => None,
            },
            platform: self.platform,
            stop_delay_ms: self.share_stop_delay_ms,
            idle_delay_ms: self.share_idle_delay_ms,
        }
    }
}

/// Whether a kernel has seen nothing yet.
pub open spec fn is_new<P: AuthPolicy, D: DataPlaneBackend>(
    k: KernelModel<P, D>,
    platform: Platform,
) -> bool {
    &&& k.control.graph@ == Map::<Seq<char>, NodeModel>::empty()
    &&& k.control.sessions@ == Map::<Seq<char>, SessionModel>::empty()
    &&& k.control.share_tokens@ == Map::<Seq<char>, TokenModel>::empty()
    &&& k.control.data_plane is None
    &&& k.control.next_id == 1
    &&& k == (KernelModel {
        control: k.control,
        registry: RegistryModel::fresh(),
        shares: Map::empty(),
        engines: Map::empty(),
        anchor: None,
        discoverable: false,
        backend: None,
        receivers: Map::empty(),
        links: Map::empty(),
        next_link: 0,
        next_pending: 1,
        identity: None,
        platform,
        stop_delay_ms: SHARE_STOP_DELAY_MS,
        idle_delay_ms: SHARE_IDLE_DELAY_MS,
    })
}

impl<P: AuthPolicy, D: DataPlaneBackend> Kernel<P, D> {
    /// What holds of every kernel.
    pub open spec fn wf(&self) -> bool {
        &&& self.control.wf()
        &&& self.registry.wf()
        &&& self.active_shares.wf()
        &&& self.engines.wf()
        &&& self.receivers.wf()
        &&& self.receive_link_meta.wf()
        &&& forall|k: Seq<char>| #[trigger]
            self.engines@.dom().contains(k) ==> self.engines@[k].stream_id@ == k
    }

    /// A kernel with the given policy for access codes.
    pub fn with_auth(platform: Platform, auth: P) -> (r: Self)
        requires
            auth.wf(),
        ensures
            r.wf(),
            r@.control.auth == auth,
            is_new(r@, platform),
    {
        let r = Kernel {
            control: ControlPlane::new(auth),
            registry: UnifiedRegistry::new(),
            active_shares: Table::new(),
            engines: Table::new(),
            anchor: None,
            discoverable: false,
            backend: None,
            receivers: Table::new(),
            receive_link_meta: Table::new(),
            next_link_id: 0,
            next_pending: 1,
            identity: None,
            platform,
            share_stop_delay_ms: SHARE_STOP_DELAY_MS,
            share_idle_delay_ms: SHARE_IDLE_DELAY_MS,
        };
        assert(r@.engines =~= Map::<Seq<char>, RunningModel>::empty());
        assert(r@.receivers =~= Map::<Seq<char>, StatsModel>::empty());
        assert(r@.links =~= Map::<Seq<char>, LinkMetaModel>::empty());
        r
    }

    /// The number of a request that is going to wait for the user. The kernel gives them out, so
    /// that they differ whichever negotiator took the requests.
    pub fn new_pending_id(&mut self) -> (r: u64)
        requires
            old(self).wf(),
        ensures
            final(self).wf(),
            r == old(self)@.next_pending,
            final(self)@ == (KernelModel {
                next_pending: old(self)@.next_pending.wrapping_add(1),
                ..old(self)@
            }),
    {
        let n: u64 = self.next_pending;
        self.next_pending = n.wrapping_add(1);
        n
    }

    /// The platform of this node.
    pub fn platform(&self) -> (r: Platform)
        ensures
            r == self@.platform,
    {
        self.platform
    }

    /// The label of the platform of this node.
    pub fn platform_str(&self) -> (r: &'static str)
        ensures
            r@ == self@.platform.label(),
    {
        self.platform.as_str()
    }

    /// Gives the kernel the capture of its platform.
    pub fn set_backend(&mut self, descriptor: CapabilityDescriptor)
        requires
            old(self).wf(),
        ensures
            final(self).wf(),
            final(self)@ == (KernelModel { backend: Some(descriptor@), ..old(self)@ }),
    {
        self.backend = Some(descriptor);
        assert(self@ =~= KernelModel { backend: Some(descriptor@), ..old(self)@ });
    }

    /// Adds an endpoint of this node; one that is there already stays as it is.
    pub fn seed_endpoint(&mut self, ep: SeedEndpoint, now: u64) -> (r: bool)
        requires
            old(self).wf(),
        ensures
            final(self).wf(),
            r == !old(self)@.registry.mounts.dom().contains(old(self)@.registry.own(ep.id)),
            final(self)@ == (if r {
                KernelModel {
                    registry: (RegistryModel {
                        mounts: old(self)@.registry.mounts.insert(
                            old(self)@.registry.own(ep.id),
                            seeded(ep, now),
                        ),
                        ..old(self)@.registry
                    }).with_named(ep.id),
                    ..old(self)@
                }
            } else {
                old(self)@
            }),
    {
        let r = self.registry.seed(ep, now);
        assert(self@ =~= KernelModel { registry: self@.registry, ..old(self)@ });
        r
    }

    /// Tells the kernel who this node is; its endpoints move along.
    pub fn set_identity(&mut self, id: DeviceIdentity)
        requires
            old(self).wf(),
        ensures
            final(self).wf(),
            final(self)@ == (KernelModel {
                identity: Some(id@),
                registry: old(self)@.registry.renamed(id.device_id@, id.device_name@),
                ..old(self)@
            }),
    {
        self.registry.set_self_node(id.device_id.as_str(), id.device_name.as_str());
        self.identity = Some(id);
        assert(self@ =~= KernelModel {
            identity: Some(id@),
            registry: old(self)@.registry.renamed(id.device_id@, id.device_name@),
            ..old(self)@
        });
    }

    /// Who this node is, if that is known.
    pub fn node_identity(&self) -> (r: Option<DeviceIdentity>)
        ensures
            match r {
                Some(i) => self@.identity == Some(i@),
                None => self@.identity is None,
            },
    {
        match &self.identity {
            Some(i) => Some(i.clone()),
            None => None,
        }
    }

    /// What is shown about the program: its version, its platform, whether `ffmpeg` is there, the
    /// addresses of this machine, and the id of this node, which is empty while it is not known.
    pub fn app_info(&self, version: &str, ffmpeg: bool, ips: Vec<String>) -> (r: AppInfo)
        ensures
            r.version@ == version@,
            r.platform@ == self@.platform.label(),
            r.ffmpeg == ffmpeg,
            r.ips == ips,
            r.node_id@ == (match self@.identity {
                Some(i) => i.device_id,
                None => ""@,
            }),
    {
        AppInfo {
            version: version.to_owned(),
            platform: self.platform.as_str().to_owned(),
            ffmpeg,
            ips,
            node_id: match &self.identity {
                Some(i) => i.device_id.clone(),
                None => "".to_owned(),
            },
        }
    }

    /// Adds a node or replaces the one with the same id.
    pub fn upsert_node(&mut self, node: NodeInfo)
        requires
            old(self).wf(),
        ensures
            final(self).wf(),
            final(self)@ == (KernelModel { control: final(self)@.control, ..old(self)@ }),
            final(self)@.control == (ControlPlane {
                graph: final(self)@.control.graph,
                ..old(self)@.control
            }),
            final(self)@.control.graph@ == old(self)@.control.graph@.insert(node.node_id@, node@),
    {
        self.control.graph.upsert_node(node);
        assert(self@ =~= KernelModel { control: self@.control, ..old(self)@ });
    }

    /// Adds an ability to a known node, unless the node has one on the same media already.
    pub fn register_capability(&mut self, node_id: &str, desc: CapabilityDescriptor)
        requires
            old(self).wf(),
        ensures
            final(self).wf(),
            final(self)@ == (KernelModel { control: final(self)@.control, ..old(self)@ }),
            final(self)@.control == (ControlPlane {
                graph: final(self)@.control.graph,
                ..old(self)@.control
            }),
            final(self)@.control.graph@ == (if old(self)@.control.graph@.dom().contains(node_id@) {
                old(self)@.control.graph@.insert(
                    node_id@,
                    with_capability(old(self)@.control.graph@[node_id@], desc@),
                )
            } else {
                old(self)@.control.graph@
            }),
    {
        self.control.graph.register_capability(node_id, desc);
        assert(self@ =~= KernelModel { control: self@.control, ..old(self)@ });
    }

    /// All nodes, in the order of their ids.
    pub fn nodes(&self) -> (r: Vec<NodeInfo>)
        requires
            self.wf(),
        ensures
            sorted(r@),
            r@.len() == self@.control.graph@.dom().len(),
            forall|k: Seq<char>| #[trigger]
                self@.control.graph@.dom().contains(k) ==> exists|i: int|
                    0 <= i < r@.len() && #[trigger] r@[i]@ == self@.control.graph@[k],
            forall|i: int|
                0 <= i < r@.len() ==> {
                    let n = #[trigger] r@[i];
                    self@.control.graph@.dom().contains(n.node_id@) && n@
                        == self@.control.graph@[n.node_id@]
                },
    {
        self.control.graph.nodes()
    }

    /// Checks a token at the time `now`.
    pub fn verify_share_token(&self, token: &ShareToken, now: u64) -> (r: Result<(), Error>)
        requires
            self.wf(),
        ensures
            token_checked(self@.control.share_tokens@, token@, now, r),
    {
        self.control.verify_share_token(token, now)
    }

    /// Connects the data plane that the kernel drives from now on.
    pub fn attach_data_plane(&mut self, backend: D)
        requires
            old(self).wf(),
            backend.wf(),
        ensures
            final(self).wf(),
            final(self)@.control == (ControlPlane { data_plane: Some(backend), ..old(self)@.control }),
            final(self)@ == (KernelModel { control: final(self)@.control, ..old(self)@ }),
    {
        self.control.data_plane = Some(backend);
        assert(self@ =~= KernelModel { control: self@.control, ..old(self)@ });
    }

    /// Whether a data plane is connected.
    pub fn has_data_plane(&self) -> (r: bool)
        ensures
            r == (self@.control.data_plane is Some),
    {
        self.control.data_plane.is_some()
    }

    /// Sets how long unwatched shares are kept.
    pub fn set_share_lifecycle_delays(&mut self, stop_delay_ms: u64, idle_delay_ms: u64)
        requires
            old(self).wf(),
        ensures
            final(self).wf(),
            final(self)@ == (KernelModel { stop_delay_ms, idle_delay_ms, ..old(self)@ }),
    {
        self.share_stop_delay_ms = stop_delay_ms;
        self.share_idle_delay_ms = idle_delay_ms;
        assert(self@ =~= KernelModel { stop_delay_ms, idle_delay_ms, ..old(self)@ });
    }
}

impl<D: DataPlaneBackend> Kernel<PinAuthPolicy, D> {
    /// A kernel with access codes.
    pub fn new(platform: Platform) -> (r: Self)
        ensures
            r.wf(),
            r@.control.auth@ == Map::<Seq<char>, String>::empty(),
            is_new(r@, platform),
    {
        Kernel::with_auth(platform, PinAuthPolicy::default())
    }
}

/// A new node knows no endpoint, no session and no stream, cannot be found, and runs on the platform
/// it was made for.
pub proof fn law_new_node_is_empty<D: DataPlaneBackend>(
    platform: Platform,
    k: Kernel<PinAuthPolicy, D>,
    shown: Platform,
    catalog: Vec<EndpointManifest>,
)
    requires
        call_ensures(Kernel::<PinAuthPolicy, D>::new, (platform,), k),
        call_ensures(Kernel::<PinAuthPolicy, D>::platform, (&k,), shown),
        call_ensures(Kernel::<PinAuthPolicy, D>::endpoint_catalog, (&k,), catalog),
    ensures
        shown == platform,
        catalog@.len() == 0,
        k.engines@.dom().len() == 0,
        k.active_shares@.dom().len() == 0,
        k.control.sessions@.dom().len() == 0,
        k.control.share_tokens@.dom().len() == 0,
        k.anchor is None,
        !k.discoverable,
        k.identity is None,
{
    let mounts = k@.registry.mounts;
    let own = Some(k@.registry.self_node);
    let keys = choose|keys: Seq<RefModel>|
        #[trigger] lists(mounts, own, false, keys) && catalog@.len() == keys.len();
    if keys.len() > 0 {
        assert(keys.contains(keys[0]));
    }
    assert(k.engines@.dom() =~= k@.engines.dom());
}

/// What is told about a node names the device it is, once that is known, and its platform.
pub proof fn law_node_tells_what_it_is<P: AuthPolicy, D: DataPlaneBackend>(
    app: &Kernel<P, D>,
    version: &str,
    ffmpeg: bool,
    ips: Vec<String>,
    identity: DeviceIdentity,
    platform: Platform,
    label: &'static str,
    r: AppInfo,
)
    requires
        call_ensures(Kernel::<P, D>::app_info, (app, version, ffmpeg, ips), r),
        call_ensures(Kernel::<P, D>::platform, (app,), platform),
        call_ensures(Platform::as_str, (&platform,), label),
    ensures
        r.version@ == version@,
        r.platform@ == label@,
        platform is Desktop ==> label@ == "desktop"@,
        platform is Android ==> label@ == "android"@,
        r.ffmpeg == ffmpeg,
        r.ips@ == ips@,
        app.identity == Some(identity) ==> r.node_id@ == identity.device_id@,
        app.identity is None ==> r.node_id@.len() == 0,
{
    reveal_strlit("");
}

/// Two requests that come one after the other wait under different numbers.
pub proof fn law_waiting_numbers_differ<P: AuthPolicy, D: DataPlaneBackend>(
    first: &mut Kernel<P, D>,
    second: &mut Kernel<P, D>,
    a: u64,
    b: u64,
)
    requires
        call_ensures(Kernel::<P, D>::new_pending_id, (first,), a),
        *old(second) == *final(first),
        call_ensures(Kernel::<P, D>::new_pending_id, (second,), b),
    ensures
        a != b,
        a < u64::MAX ==> b == a + 1,
{
}

/// The delays of shares are those that were set last, and setting them changes nothing else.
pub proof fn law_share_delays_are_those_set<P: AuthPolicy, D: DataPlaneBackend>(
    app: &mut Kernel<P, D>,
    stop_delay_ms: u64,
    idle_delay_ms: u64,
)
    requires
        call_ensures(
            Kernel::<P, D>::set_share_lifecycle_delays,
            (app, stop_delay_ms, idle_delay_ms),
            (),
        ),
    ensures
        final(app).share_stop_delay_ms == stop_delay_ms,
        final(app).share_idle_delay_ms == idle_delay_ms,
        final(app)@.registry == old(app)@.registry,
        final(app)@.shares == old(app)@.shares,
        final(app)@.engines == old(app)@.engines,
{
}

/// A data plane that is attached is there, and attaching it leaves endpoints, shares and sessions
/// alone.
pub proof fn law_attached_data_plane_is_there<P: AuthPolicy, D: DataPlaneBackend>(
    app: &mut Kernel<P, D>,
    backend: D,
    r: bool,
)
    requires
        call_ensures(Kernel::<P, D>::attach_data_plane, (app, backend), ()),
        call_ensures(Kernel::<P, D>::has_data_plane, (&*final(app),), r),
    ensures
        r,
        final(app)@.registry == old(app)@.registry,
        final(app)@.shares == old(app)@.shares,
        final(app).control.sessions == old(app).control.sessions,
        final(app).control.data_plane == Some(backend),
{
}

} // verus!
