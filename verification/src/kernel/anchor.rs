//! The anchor of a node: its resident relay and how it is announced.

use vstd::prelude::*;

use crate::discovery::info::{
    relay_codecs, relay_roles, relay_transports, DiscoveryInfo, DiscoveryResp, RoleId,
    DISCOVERY_INFO_VERSION,
};
use crate::kernel::auth::AuthPolicy;
use crate::kernel::data_plane::DataPlaneBackend;
use crate::kernel::endpoint::manifest::{str_view, EndpointManifest, EndpointSummary};
use crate::kernel::endpoint::mounts::{lists, summaries_listed};
use crate::kernel::endpoint::registry::RegistryModel;
use crate::kernel::graph::{
    with_capability, CapabilityDescriptor, CapabilityModel, NodeGraph, NodeInfo, NodeModel, NodeRole,
};
use crate::kernel::session_api::ControlPlane;
use crate::kernel::{AnchorModel, Kernel, KernelModel, LocalAnchor};
use crate::message::{CodecId, EndpointId, MediaKind, RefModel, TransportId};
use crate::negotiator::trust::{DeviceIdentity, IdentityModel};
use crate::text::{
    dec, decimal, is_empty_text, join2, join3, lemma_numeral_injective, take_chars, taken,
};

verus! {

/// The name under which the relay of a node is announced.
pub open spec fn instance_name(node_id: Option<Seq<char>>, port: u16) -> Seq<char> {
    match node_id {
        Some(id) => if id.len() > 0 {
            "stross-"@ + taken(id, 8) + "-"@ + dec(port as nat)
        } else {
            "sender-"@ + dec(port as nat)
        },
        None => "sender-"@ + dec(port as nat),
    }
}

/// The name under which the relay of a node is announced: the first eight characters of the node
/// id and the port, so that nodes with the same port have different names; without an id, the
/// port alone.
pub fn relay_mdns_instance(node_id: Option<&str>, port: u16) -> (r: String)
    ensures
        r@ == instance_name(str_view(node_id), port),
{
    let number: String = decimal(port as u64);
    match node_id {
        Some(id) => {
            if is_empty_text(id) {
                return join2("sender-", number.as_str());
            }
            let short: String = take_chars(id, 8);
            let a: String = join3("stross-", short.as_str(), "-");
            join2(a.as_str(), number.as_str())
        },
        None => join2("sender-", number.as_str()),
    }
}

/// Two nodes whose ids differ in their first eight characters have different names, whatever
/// their ports.
pub proof fn law_instances_differ(a: Seq<char>, b: Seq<char>, p: u16, q: u16)
    requires
        a.len() >= 8,
        b.len() >= 8,
        a.take(8) != b.take(8),
    ensures
        instance_name(Some(a), p) != instance_name(Some(b), q),
{
    reveal_strlit("stross-");
    reveal_strlit("-");
    let x = instance_name(Some(a), p);
    let y = instance_name(Some(b), q);
    assert(taken(a, 8) =~= a.take(8));
    assert(taken(b, 8) =~= b.take(8));
    assert(x.subrange(7, 15) =~= a.take(8));
    assert(y.subrange(7, 15) =~= b.take(8));
}

/// Two nodes whose ids differ in what is taken of them, however short, have different names at one
/// port.
pub proof fn law_instances_differ_at_one_port(a: Seq<char>, b: Seq<char>, port: u16)
    requires
        a.len() > 0,
        b.len() > 0,
        taken(a, 8) != taken(b, 8),
    ensures
        instance_name(Some(a), port) != instance_name(Some(b), port),
{
    reveal_strlit("stross-");
    reveal_strlit("-");
    let x = instance_name(Some(a), port);
    let y = instance_name(Some(b), port);
    if x == y {
        assert(x.len() == 8 + taken(a, 8).len() + dec(port as nat).len());
        assert(y.len() == 8 + taken(b, 8).len() + dec(port as nat).len());
        assert(x.subrange(7, (7 + taken(a, 8).len()) as int) =~= taken(a, 8));
        assert(y.subrange(7, (7 + taken(b, 8).len()) as int) =~= taken(b, 8));
    }
}

/// A node that is announced with another port has another name.
pub proof fn law_instance_tells_port(id: Option<Seq<char>>, p: u16, q: u16)
    requires
        instance_name(id, p) == instance_name(id, q),
    ensures
        p == q,
{
    let x = dec(p as nat);
    let y = dec(q as nat);
    let head = match id {
        Some(i) => if i.len() > 0 {
            "stross-"@ + taken(i, 8) + "-"@
        } else {
            "sender-"@
        },
        None => "sender-"@,
    };
    assert(instance_name(id, p).skip(head.len() as int) =~= x);
    assert(instance_name(id, q).skip(head.len() as int) =~= y);
    lemma_numeral_injective(p as nat, q as nat, 10);
}

/// What a node with a relay shares.
pub open spec fn anchor_media() -> Seq<MediaKind> {
    seq![MediaKind::Screen, MediaKind::Camera, MediaKind::Mic, MediaKind::SystemAudio]
}

/// What is to be done about the announcement of the relay.
pub enum MdnsAction {
    Nothing,
    /// Announce the relay.
    Start { instance: String, hostname: String, port: u16, info: DiscoveryInfo },
    /// Announce what the node offers now.
    Refresh { info: DiscoveryInfo },
    /// Announce nothing any longer.
    Stop,
}

/// The resident relay as it is shown.
pub struct RelayInfo {
    pub port: u16,
    pub hostname: String,
    pub endpoints: Vec<EndpointSummary>,
}

/// Where a relay is to listen; zero stands for any free port.
pub struct RelayPorts {
    pub port: u16,
    pub srt_port: u16,
    pub quic_port: u16,
}

/// How the resident relay comes up.
pub enum AnchorStart {
    /// It runs already.
    Running(RelayInfo),
    /// It is to be bound to these ports.
    Bind(RelayPorts),
}

/// Whether an announcement describes this node under the given name.
pub open spec fn describes_node(
    registry: RegistryModel,
    hostname: Seq<char>,
    info: DiscoveryInfo,
) -> bool {
    &&& info.v == DISCOVERY_INFO_VERSION
    &&& info.name@ == hostname
    &&& info.roles@ == relay_roles()
    &&& info.media@ == anchor_media()
    &&& info.transports@ == relay_transports()
    &&& info.codecs@ == relay_codecs()
    &&& summaries_listed(registry.mounts, Some(registry.self_node), info.endpoints@)
}

/// The id of this node, if it is known.
pub open spec fn identity_id(identity: Option<IdentityModel>) -> Option<Seq<char>> {
    match identity {
        Some(i) => Some(i.device_id),
        None => None,
    }
}

/// Whether an action announces the relay of a node.
pub open spec fn starts_announcing<P: AuthPolicy, D: DataPlaneBackend>(
    k: KernelModel<P, D>,
    anchor: AnchorModel,
    action: MdnsAction,
) -> bool {
    match action {
        MdnsAction::Start { instance, hostname, port, info } => {
            &&& instance@ == instance_name(identity_id(k.identity), anchor.port)
            &&& hostname@ == anchor.hostname
            &&& port == anchor.port
            &&& describes_node(k.registry, anchor.hostname, info)
        },
        _ => false,
    }
}

/// What follows from whether this node may be found: without a relay, nothing; else it is announced
/// or announced anew, or no longer announced.
pub open spec fn announcement_settled<P: AuthPolicy, D: DataPlaneBackend>(
    pre: KernelModel<P, D>,
    post: KernelModel<P, D>,
    action: MdnsAction,
) -> bool {
    match pre.anchor {
        None => post == pre && action is Nothing,
        Some(a) => if pre.discoverable {
            &&& post == pre
            &&& if a.announced {
                action matches MdnsAction::Refresh { info } && describes_node(
                    pre.registry,
                    a.hostname,
                    info,
                )
            } else {
                starts_announcing(pre, a, action)
            }
        } else {
            &&& post == (KernelModel {
                anchor: Some(AnchorModel { announced: false, ..a }),
                ..pre
            })
            &&& if a.announced {
                action is Stop
            } else {
                action is Nothing
            }
        },
    }
}

/// This node among the nodes, as it is after its relay came up.
pub open spec fn local_node(hostname: Seq<char>, backend: Option<CapabilityModel>) -> NodeModel {
    NodeModel {
        node_id: "local"@,
        name: hostname,
        roles: seq![NodeRole::Sender, NodeRole::Viewer, NodeRole::Relay],
        caps: match backend {
            Some(c) => seq![c],
            None => Seq::empty(),
        },
        addrs: Seq::empty(),
    }
}

impl<P: AuthPolicy, D: DataPlaneBackend> Kernel<P, D> {
    /// Whether other nodes may find this one.
    pub fn discoverable(&self) -> (r: bool)
        ensures
            r == self@.discoverable,
    {
        self.discoverable
    }

    /// Sets whether other nodes may find this one, and says what is to be done about it.
    pub fn set_discoverable(&mut self, on: bool) -> (r: MdnsAction)
        requires
            old(self).wf(),
        ensures
            final(self).wf(),
            announcement_settled(
                KernelModel { discoverable: on, ..old(self)@ },
                final(self)@,
                r,
            ),
    {
        self.discoverable = on;
        assert(self@ =~= KernelModel { discoverable: on, ..old(self)@ });
        self.apply_discoverable()
    }

    /// Says what is to be done so that the announcement fits the current state.
    pub fn apply_discoverable(&mut self) -> (r: MdnsAction)
        requires
            old(self).wf(),
        ensures
            final(self).wf(),
            announcement_settled(old(self)@, final(self)@, r),
    {
        let mut anchor: LocalAnchor = match self.anchor.take() {
            None => {
                assert(self@ =~= old(self)@);
                return MdnsAction::Nothing;
            },
            Some(a) => a,
        };
        let ghost am = anchor@;
        let r: MdnsAction = if self.discoverable {
            let info = self.mdns_info(anchor.hostname.as_str());
            if anchor.announced {
                MdnsAction::Refresh { info }
            } else {
                let instance: String = self.instance(anchor.port);
                MdnsAction::Start {
                    instance,
                    hostname: anchor.hostname.clone(),
                    port: anchor.port,
                    info,
                }
            }
        } else if anchor.announced {
            anchor.announced = false;
            MdnsAction::Stop
        } else {
            MdnsAction::Nothing
        };
        let ghost after = anchor@;
        self.anchor = Some(anchor);
        assert(self@ =~= KernelModel { anchor: Some(after), ..old(self)@ });
        if self.discoverable {
            assert(after == am);
            assert(self@ =~= old(self)@);
        }
        r
    }

    fn instance(&self, port: u16) -> (r: String)
        ensures
            r@ == instance_name(identity_id(self@.identity), port),
    {
        match &self.identity {
            Some(i) => relay_mdns_instance(Some(i.device_id.as_str()), port),
            None => relay_mdns_instance(None, port),
        }
    }

    /// Notes whether the relay could be announced.
    pub fn note_announced(&mut self, ok: bool)
        requires
            old(self).wf(),
        ensures
            final(self).wf(),
            final(self)@ == (match old(self)@.anchor {
                Some(a) => KernelModel {
                    anchor: Some(AnchorModel { announced: ok, ..a }),
                    ..old(self)@
                },
                None => old(self)@,
            }),
    {
        match self.anchor.take() {
            None => {
                assert(self@ =~= old(self)@);
            },
            Some(a) => {
                let mut anchor: LocalAnchor = a;
                anchor.announced = ok;
                let ghost after = anchor@;
                self.anchor = Some(anchor);
                assert(self@ =~= KernelModel { anchor: Some(after), ..old(self)@ });
            },
        }
    }

    /// What this node announces about itself.
    pub fn mdns_info(&self, hostname: &str) -> (r: DiscoveryInfo)
        requires
            self.registry.wf(),
        ensures
            describes_node(self@.registry, hostname@, r),
    {
        let mut media: Vec<MediaKind> = Vec::new();
        media.push(MediaKind::Screen);
        media.push(MediaKind::Camera);
        media.push(MediaKind::Mic);
        media.push(MediaKind::SystemAudio);
        assert(media@ =~= anchor_media());
        DiscoveryInfo::relay_default(hostname.to_owned(), media, self.registry.summaries())
    }

    /// Begins to bring the resident relay up: one that runs is used; else the wanted ports are to
    /// be tried.
    pub fn start_relay_fixed(&self, port: u16, srt_port: u16, quic_port: u16, hostname: &str) -> (r:
        AnchorStart)
        requires
            self.wf(),
        ensures
            match self@.anchor {
                Some(a) => r matches AnchorStart::Running(i) && i.port == a.port && i.hostname@
                    == hostname@ && summaries_listed(
                    self@.registry.mounts,
                    Some(self@.registry.self_node),
                    i.endpoints@,
                ),
                None => r == AnchorStart::Bind(RelayPorts { port, srt_port, quic_port }),
            },
    {
        match &self.anchor {
            Some(a) => AnchorStart::Running(
                RelayInfo {
                    port: a.port,
                    hostname: hostname.to_owned(),
                    endpoints: self.registry.summaries(),
                },
            ),
            None => AnchorStart::Bind(RelayPorts { port, srt_port, quic_port }),
        }
    }

    /// The ports to try when the wanted ones are taken: any that are free.
    pub fn relay_fallback() -> (r: RelayPorts)
        ensures
            r == (RelayPorts { port: 0, srt_port: 0, quic_port: 0 }),
    {
        RelayPorts { port: 0, srt_port: 0, quic_port: 0 }
    }

    /// Notes that the resident relay is up: it becomes the data plane, this node joins the nodes
    /// with what it can capture, and the relay is to be announced if this node may be found.
    pub fn complete_relay(
        &mut self,
        port: u16,
        srt_port: Option<u16>,
        quic_port: Option<u16>,
        hostname: &str,
        backend: D,
    ) -> (r: (RelayInfo, MdnsAction))
        requires
            old(self).wf(),
            backend.wf(),
        ensures
            final(self).wf(),
            ({
                let a = AnchorModel {
                    port,
                    srt_port,
                    quic_port,
                    hostname: hostname@,
                    announced: false,
                };
                &&& final(self)@ == (KernelModel {
                    control: final(self)@.control,
                    anchor: Some(a),
                    ..old(self)@
                })
                &&& final(self)@.control == (ControlPlane {
                    graph: final(self)@.control.graph,
                    data_plane: Some(backend),
                    ..old(self)@.control
                })
                &&& final(self)@.control.graph@ == old(self)@.control.graph@.insert(
                    "local"@,
                    local_node(hostname@, old(self)@.backend),
                )
                &&& r.0.port == port
                &&& r.0.hostname@ == hostname@
                &&& summaries_listed(
                    old(self)@.registry.mounts,
                    Some(old(self)@.registry.self_node),
                    r.0.endpoints@,
                )
                &&& if old(self)@.discoverable {
                    starts_announcing(old(self)@, a, r.1)
                } else {
                    r.1 is Nothing
                }
            }),
    {
        self.attach_data_plane(backend);
        self.register_local_node(hostname);
        self.anchor = Some(
            LocalAnchor {
                port,
                srt_port,
                quic_port,
                hostname: hostname.to_owned(),
                announced: false,
            },
        );
        assert(self@ =~= KernelModel {
            control: self@.control,
            anchor: self@.anchor,
            ..old(self)@
        });
        let action: MdnsAction = if self.discoverable {
            MdnsAction::Start {
                instance: self.instance(port),
                hostname: hostname.to_owned(),
                port,
                info: self.mdns_info(hostname),
            }
        } else {
            MdnsAction::Nothing
        };
        let info = RelayInfo {
            port,
            hostname: hostname.to_owned(),
            endpoints: self.registry.summaries(),
        };
        (info, action)
    }

    /// Adds this node to the nodes, with what it can capture.
    pub fn register_local_node(&mut self, hostname: &str)
        requires
            old(self).wf(),
        ensures
            final(self).wf(),
            final(self)@ == (KernelModel { control: final(self)@.control, ..old(self)@ }),
            final(self)@.control == (ControlPlane {
                graph: final(self)@.control.graph,
                ..old(self)@.control
            }),
            final(self)@.control.graph@ == old(self)@.control.graph@.insert(
                "local"@,
                local_node(hostname@, old(self)@.backend),
            ),
    {
        let mut roles: Vec<NodeRole> = Vec::new();
        roles.push(NodeRole::Sender);
        roles.push(NodeRole::Viewer);
        roles.push(NodeRole::Relay);
        assert(roles@ =~= seq![NodeRole::Sender, NodeRole::Viewer, NodeRole::Relay]);
        let node = NodeInfo {
            node_id: "local".to_owned(),
            name: hostname.to_owned(),
            roles,
            caps: Vec::new(),
            addrs: Vec::new(),
        };
        let ghost nm = node@;
        assert(nm =~= local_node(hostname@, None));
        self.control.graph.upsert_node(node);
        match &self.backend {
            Some(b) => {
                self.control.graph.register_capability("local", b.clone());
                proof {
                    assert(with_capability(nm, b@) =~= local_node(hostname@, Some(b@)));
                    let g = old(self)@.control.graph@;
                    assert(g.insert("local"@, nm).insert(
                        "local"@,
                        with_capability(nm, b@),
                    ) =~= g.insert("local"@, with_capability(nm, b@)));
                }
            },
            None => {},
        }
        assert(self@ =~= KernelModel { control: self@.control, ..old(self)@ });
    }

    /// The port of the resident relay.
    pub fn relay_port(&self) -> (r: Option<u16>)
        ensures
            r == (match self@.anchor {
                Some(a) => Some(a.port),
                None => None,
            }),
    {
        match &self.anchor {
            Some(a) => Some(a.port),
            None => None,
        }
    }

    /// All ports of the resident relay: WebSocket, SRT and QUIC.
    pub fn relay_ports(&self) -> (r: Option<(u16, Option<u16>, Option<u16>)>)
        ensures
            r == (match self@.anchor {
                Some(a) => Some((a.port, a.srt_port, a.quic_port)),
                None => None,
            }),
    {
        match &self.anchor {
            Some(a) => Some((a.port, a.srt_port, a.quic_port)),
            None => None,
        }
    }

    /// What this node answers when it is asked who it is: nothing while it may not be found, has no
    /// relay, or does not know its own id.
    pub fn discovery_manifest(&self) -> (r: Option<DiscoveryResp>)
        requires
            self.wf(),
        ensures
            r is Some <==> can_be_found(self@),
            r matches Some(m) ==> tells_about(self@, m),
    {
        if !self.discoverable {
            return None;
        }
        let ports: (u16, Option<u16>, Option<u16>) = match self.relay_ports() {
            Some(p) => p,
            None => {
                return None;
            },
        };
        let id: DeviceIdentity = match self.node_identity() {
            Some(i) => i,
            None => {
                return None;
            },
        };
        let info = self.mdns_info(id.device_name.as_str());
        Some(
            DiscoveryResp {
                node_id: id.device_id,
                name: info.name,
                relay_port: ports.0,
                srt_port: ports.1,
                quic_port: ports.2,
                roles: info.roles,
                media: info.media,
                transports: info.transports,
                endpoints: info.endpoints,
            },
        )
    }
}

/// Whether an answer tells who a node is, where its relay is reached, and what it offers.
pub open spec fn tells_about<P: AuthPolicy, D: DataPlaneBackend>(
    k: KernelModel<P, D>,
    m: DiscoveryResp,
) -> bool {
    let a = k.anchor->0;
    let i = k.identity->0;
    &&& m.node_id@ == i.device_id
    &&& m.name@ == i.device_name
    &&& m.relay_port == a.port
    &&& m.srt_port == a.srt_port
    &&& m.quic_port == a.quic_port
    &&& m.roles@ == relay_roles()
    &&& m.media@ == anchor_media()
    &&& m.transports@ == relay_transports()
    &&& summaries_listed(k.registry.mounts, Some(k.registry.self_node), m.endpoints@)
}

/// Whether a node answers those who look for it.
pub open spec fn can_be_found<P: AuthPolicy, D: DataPlaneBackend>(k: KernelModel<P, D>) -> bool {
    k.discoverable && k.anchor is Some && k.identity is Some
}

/// Once this node may not be found, its relay is not announced, and it answers nobody.
pub proof fn law_hidden_node_is_silent<P: AuthPolicy, D: DataPlaneBackend>(
    pre: KernelModel<P, D>,
    post: KernelModel<P, D>,
    action: MdnsAction,
)
    requires
        announcement_settled(KernelModel { discoverable: false, ..pre }, post, action),
    ensures
        !can_be_found(post),
        post.anchor matches Some(a) ==> !a.announced,
        pre.anchor matches Some(a) && a.announced ==> action is Stop,
{
}

/// A relay that came up is known with the ports at which it listens: that is what the kernel tells of
/// it, and what an announcement says, if the node may be found. The node stands among the nodes under
/// its name.
pub proof fn law_relay_that_came_up_is_known<P: AuthPolicy, D: DataPlaneBackend>(
    app: &mut Kernel<P, D>,
    port: u16,
    srt_port: Option<u16>,
    quic_port: Option<u16>,
    hostname: &str,
    backend: D,
    r: (RelayInfo, MdnsAction),
    ports: Option<(u16, Option<u16>, Option<u16>)>,
    main: Option<u16>,
)
    requires
        call_ensures(
            Kernel::<P, D>::complete_relay,
            (app, port, srt_port, quic_port, hostname, backend),
            r,
        ),
        call_ensures(Kernel::<P, D>::relay_ports, (&*final(app),), ports),
        call_ensures(Kernel::<P, D>::relay_port, (&*final(app),), main),
    ensures
        ports == Some((port, srt_port, quic_port)),
        main == Some(port),
        final(app).anchor matches Some(a) && a.hostname@ == hostname@ && !a.announced,
        final(app).control.data_plane == Some(backend),
        final(app).control.graph@.dom().contains("local"@),
        final(app).control.graph@["local"@].name == hostname@,
        r.0.port == port,
        r.0.hostname@ == hostname@,
        old(app).discoverable ==> (r.1 matches MdnsAction::Start {
            instance,
            hostname: h,
            port: p,
            info,
        } && h@ == hostname@ && p == port && info.name@ == hostname@),
        !old(app).discoverable ==> r.1 is Nothing,
{
}

/// What is announced of a node says what the node offers: its name, that it sends, watches and
/// relays, that it is reached over the WebSocket, SRT and QUIC, and each of its endpoints, with its
/// name, whether it is available, and whether it is announced.
pub proof fn law_announcement_says_what_is_offered<P: AuthPolicy, D: DataPlaneBackend>(
    app: &Kernel<P, D>,
    hostname: &str,
    info: DiscoveryInfo,
    id: EndpointId,
    m: EndpointManifest,
) -> (i: int)
    requires
        app.wf(),
        call_ensures(Kernel::<P, D>::mdns_info, (app, hostname), info),
        call_ensures(Kernel::<P, D>::endpoint_manifest, (app, id), Some(m)),
    ensures
        info.name@ == hostname@,
        info.roles@.contains(RoleId::Sender),
        info.roles@.contains(RoleId::Viewer),
        info.roles@.contains(RoleId::Relay),
        info.transports@.contains(TransportId::Ws),
        info.transports@.contains(TransportId::Srt),
        info.transports@.contains(TransportId::Quic),
        info.codecs@.contains(CodecId::H264),
        info.codecs@.contains(CodecId::Aac),
        info.media@.contains(MediaKind::Screen),
        info.media@.contains(MediaKind::Mic),
        0 <= i < info.endpoints@.len(),
        info.endpoints@[i].kind == id.kind,
        info.endpoints@[i].endpoint_id == id.id,
        info.endpoints@[i].name@ == m.name@,
        info.endpoints@[i].available == m.available,
        info.endpoints@[i].published == m.published,
{
    app.registry.lemma_consistent();
    let mounts = app@.registry.mounts;
    let own = Some(app@.registry.self_node);
    let keys = choose|keys: Seq<RefModel>|
        {
            &&& #[trigger] lists(mounts, own, false, keys)
            &&& info.endpoints@.len() == keys.len()
            &&& forall|i: int|
                0 <= i < info.endpoints@.len() ==> (#[trigger] info.endpoints@[i])@
                    == mounts[keys[i]].summary()
        };
    let key = app@.registry.own(id);
    assert(keys.contains(key));
    let i = choose|i: int| 0 <= i < keys.len() && keys[i] == key;
    assert(info.endpoints@[i]@ == mounts[key].summary());
    assert(info.roles@[0] is Sender && info.roles@[1] is Viewer && info.roles@[2] is Relay);
    assert(info.transports@[0] is Ws && info.transports@[1] is Srt && info.transports@[2] is Quic);
    assert(info.codecs@[0] is H264 && info.codecs@[1] is Aac);
    assert(info.media@[0] is Screen && info.media@[2] is Mic);
    i
}

/// A node with a relay that may be found is announced, and announced anew once it is announced; a
/// node that may no longer be found is announced no more, and answers nobody.
pub proof fn law_node_is_found_when_it_may_be<P: AuthPolicy, D: DataPlaneBackend>(
    app: &mut Kernel<P, D>,
    on: bool,
    action: MdnsAction,
    may: bool,
    answer: Option<DiscoveryResp>,
)
    requires
        call_ensures(Kernel::<P, D>::set_discoverable, (app, on), action),
        call_ensures(Kernel::<P, D>::discoverable, (&*final(app),), may),
        call_ensures(Kernel::<P, D>::discovery_manifest, (&*final(app),), answer),
    ensures
        may == on,
        old(app).anchor is None ==> action is Nothing,
        on && old(app).anchor is Some ==> {
            let a = old(app).anchor->0;
            if a.announced {
                action matches MdnsAction::Refresh { info } && info.name@ == a.hostname@
            } else {
                action matches MdnsAction::Start { instance, hostname, port, info } && hostname@
                    == a.hostname@ && port == a.port && info.name@ == a.hostname@
            }
        },
        !on && old(app).anchor is Some ==> {
            if old(app).anchor->0.announced {
                action is Stop
            } else {
                action is Nothing
            }
        },
        !on ==> answer is None,
        answer is Some <==> on && old(app).anchor is Some && old(app).identity is Some,
        final(app)@.registry == old(app)@.registry,
{
}

/// Whether the relay could be announced is remembered: one that could is announced anew the next time.
pub proof fn law_announced_relay_is_announced_anew<P: AuthPolicy, D: DataPlaneBackend>(
    app: &mut Kernel<P, D>,
    ok: bool,
    next: &mut Kernel<P, D>,
    action: MdnsAction,
)
    requires
        old(app).anchor is Some,
        old(app).discoverable,
        call_ensures(Kernel::<P, D>::note_announced, (app, ok), ()),
        *old(next) == *final(app),
        call_ensures(Kernel::<P, D>::apply_discoverable, (next,), action),
    ensures
        ok ==> action is Refresh,
        !ok ==> action is Start,
        final(app).anchor matches Some(a) && a.port == old(app).anchor->0.port && a.announced == ok,
{
}

/// What a node answers when it is asked who it is holds its id and name, the ports of its relay, and
/// what it does.
pub proof fn law_answer_tells_who_the_node_is<P: AuthPolicy, D: DataPlaneBackend>(
    app: &Kernel<P, D>,
    m: DiscoveryResp,
    ports: Option<(u16, Option<u16>, Option<u16>)>,
    who: Option<DeviceIdentity>,
)
    requires
        call_ensures(Kernel::<P, D>::discovery_manifest, (app,), Some(m)),
        call_ensures(Kernel::<P, D>::relay_ports, (app,), ports),
        call_ensures(Kernel::<P, D>::node_identity, (app,), who),
    ensures
        who matches Some(i) && m.node_id@ == i.device_id@ && m.name@ == i.device_name@,
        ports == Some((m.relay_port, m.srt_port, m.quic_port)),
        m.roles@.contains(RoleId::Relay),
        m.transports@.contains(TransportId::Quic),
{
    assert(m.roles@[2] is Relay);
    assert(m.transports@[2] is Quic);
}

/// A relay that runs is used; without one the wanted ports are tried, and then any free ones.
pub proof fn law_running_relay_is_used<P: AuthPolicy, D: DataPlaneBackend>(
    app: &Kernel<P, D>,
    port: u16,
    srt_port: u16,
    quic_port: u16,
    hostname: &str,
    r: AnchorStart,
    fallback: RelayPorts,
)
    requires
        call_ensures(
            Kernel::<P, D>::start_relay_fixed,
            (app, port, srt_port, quic_port, hostname),
            r,
        ),
        call_ensures(Kernel::<P, D>::relay_fallback, (), fallback),
    ensures
        app.anchor matches Some(a) ==> (r matches AnchorStart::Running(i) && i.port == a.port),
        app.anchor is None ==> (r matches AnchorStart::Bind(p) && p.port == port && p.srt_port
            == srt_port && p.quic_port == quic_port),
        fallback.port == 0 && fallback.srt_port == 0 && fallback.quic_port == 0,
{
}

/// The name of a relay holds its port and the beginning of the node id.
pub proof fn law_instance_holds_id_and_port(id: &str, port: u16, r: String)
    requires
        call_ensures(relay_mdns_instance, (Some(id), port), r),
        id@.len() >= 8,
    ensures
        r@ == "stross-"@ + id@.take(8) + "-"@ + dec(port as nat),
{
    assert(taken(id@, 8) =~= id@.take(8));
}

/// This node stands among the nodes under its own name once it was added, and it can capture what
/// its backend can.
pub proof fn law_local_node_stands_among_the_nodes<P: AuthPolicy, D: DataPlaneBackend>(
    app: &mut Kernel<P, D>,
    descriptor: CapabilityDescriptor,
    then: &mut Kernel<P, D>,
    hostname: &str,
    local: &str,
    node: Option<NodeInfo>,
)
    requires
        call_ensures(Kernel::<P, D>::set_backend, (app, descriptor), ()),
        *old(then) == *final(app),
        call_ensures(Kernel::<P, D>::register_local_node, (then, hostname), ()),
        local@ == "local"@,
        call_ensures(NodeGraph::node, (&final(then).control.graph, local), node),
    ensures
        node matches Some(n) && n.name@ == hostname@ && n.caps@.len() == 1 && n.caps@[0]@
            == descriptor@,
{
    let n = node->0;
    assert(n@.caps.len() == 1);
    assert(n@.caps[0] == n.caps@[0]@);
}

/// A node that can be found says the same of itself whichever way it is asked: that it shares
/// screens, cameras, microphones and the sound of the system, that it sends, shows and relays, and
/// over which transports.
pub proof fn law_node_says_the_same_everywhere<P: AuthPolicy, D: DataPlaneBackend>(
    app: &Kernel<P, D>,
    hostname: &str,
    info: DiscoveryInfo,
    m: DiscoveryResp,
)
    requires
        call_ensures(Kernel::<P, D>::mdns_info, (app, hostname), info),
        call_ensures(Kernel::<P, D>::discovery_manifest, (app,), Some(m)),
    ensures
        info.media@ == seq![
            MediaKind::Screen,
            MediaKind::Camera,
            MediaKind::Mic,
            MediaKind::SystemAudio,
        ],
        m.media@ == info.media@,
        info.roles@ == seq![RoleId::Sender, RoleId::Viewer, RoleId::Relay],
        m.roles@ == info.roles@,
        info.transports@ == seq![TransportId::Ws, TransportId::Srt, TransportId::Quic],
        m.transports@ == info.transports@,
        info.codecs@ == seq![CodecId::H264, CodecId::Aac],
{
}

} // verus!
