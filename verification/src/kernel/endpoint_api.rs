//! Announcing endpoints, and who subscribes to them.

use vstd::prelude::*;

use crate::error::Error;
use crate::kernel::anchor::{announcement_settled, MdnsAction};
use crate::kernel::auth::AuthPolicy;
use crate::kernel::data_plane::DataPlaneBackend;
use crate::kernel::endpoint::file_source::FileSource;
use crate::kernel::endpoint::manifest::{
    str_view, strategy_view, EndpointDir, EndpointManifest,
};
use crate::kernel::endpoint::mounts::{
    first_free, lists, manifests_listed, preferred_transports, publish_outcome, remote_entry,
    without_owner, EndpointRegistry, EntryModel, FileMeta, FileOffer, SeedEndpoint,
};
use crate::kernel::endpoint::registry::{
    file_outcome, file_shared, manifest_ids, node_registration, unpublish_outcome, with_remote,
    NodeRegistration, RegistryModel, UnifiedRegistry,
};
use crate::kernel::endpoint::subscribe_generate::{
    built, SubscribeEndpoint, SubscribeEndpointFactory,
};
use crate::kernel::share_service::{
    reaped, reaped_rest, share_stopped, shared, Reaped, ShareCheck,
};
use crate::kernel::{running_view, Kernel, KernelModel, RunningStream};
use crate::message::{
    kind_rank, law_kind_rank_injective, strategy_models, texts, CodecId, Delivery, EndpointClass, EndpointId, EndpointState, EndpointStrategy,
    RefModel, SubscribeSpec, TargetKind, TransportPreference, Visibility, VisibilityModel,
};
use crate::negotiator::trust::DeviceIdentity;
use crate::order::text_le;
use crate::platform::Platform;
use crate::stream_id::{derive_stream_id, law_stream_id_tells_endpoint, stream_id_of};
use crate::text::{join3, same};

verus! {

/// The transports that an announcement gets when none are named: those of the endpoint's kind of
/// target, or those of a live one when there is no such endpoint.
pub open spec fn announced_transports(
    registry: RegistryModel,
    id: EndpointId,
    given: Option<Vec<TransportPreference>>,
) -> Seq<TransportPreference> {
    match given {
        Some(v) => v@,
        None => preferred_transports(
            if registry.mounts.dom().contains(registry.own(id)) {
                registry.mounts[registry.own(id)].target
            } else {
                TargetKind::Live
            },
        ),
    }
}

/// The codecs that an announcement gets when none are named.
pub open spec fn announced_codecs(given: Option<Vec<CodecId>>) -> Seq<CodecId> {
    match given {
        Some(v) => v@,
        None => seq![CodecId::H264, CodecId::Aac],
    }
}

/// A change of the data plane that the kernel is told about.
#[derive(Debug)]
pub enum RelayEvent {
    StreamStarted { stream_id: String },
    StreamEnded { stream_id: String },
    WatchersChanged { stream_id: String, watchers: u32 },
}

/// What the user interface is told.
#[derive(Debug)]
pub enum KernelEvent {
    StreamStarted { session_id: String },
    StreamEnded { session_id: String },
    WatchersChanged { session_id: String, watchers: u32 },
}

/// An endpoint that was announced, and what is to be done about the node's announcement.
pub struct Published {
    pub manifest: EndpointManifest,
    pub action: MdnsAction,
}

/// The name of the stream of an announced endpoint, by which the announcement can be taken back.
pub struct ShareHandle {
    pub stream_id: String,
    pub action: MdnsAction,
}

/// The outcome of taking an announcement back.
pub struct Unpublished {
    /// What is to be done about the node's announcement, or why the endpoint's was not withdrawn.
    pub result: Result<MdnsAction, Error>,
    /// The push that is to be stopped.
    pub engine: Option<RunningStream>,
}

/// The endpoints of this node, as they are shown on its card.
pub struct LocalCatalog {
    pub endpoints: Vec<EndpointManifest>,
}

/// What follows from a change of the data plane.
pub struct EventOutcome {
    pub event: KernelEvent,
    /// What is left to be done when a stream ended.
    pub reaped: Option<Reaped>,
    /// Whether the share over the stream is to be checked after the delay for unwatched shares.
    pub recheck: bool,
}

impl<P: AuthPolicy, D: DataPlaneBackend> Kernel<P, D> {
    /// Announces an endpoint of this node. One that is not available is refused with the reason.
    /// What the node tells about itself is to be brought up to date afterwards.
    pub fn publish_endpoint(
        &mut self,
        endpoint_id: EndpointId,
        visibility: Visibility,
        delivery: Delivery,
        transports: Option<Vec<TransportPreference>>,
        codecs: Option<Vec<CodecId>>,
        now: u64,
    ) -> (r: Result<Published, Error>)
        requires
            old(self).wf(),
        ensures
            final(self).wf(),
            announced(
                old(self)@,
                final(self)@,
                endpoint_id,
                visibility@,
                delivery,
                announced_transports(old(self)@.registry, endpoint_id, transports),
                announced_codecs(codecs),
                now,
                r,
            ),
    {
        let target: TargetKind = match self.registry.target(endpoint_id) {
            Some(t) => t,
            None => TargetKind::Live,
        };
        let ts: Vec<TransportPreference> = match transports {
            Some(v) => v,
            None => EndpointRegistry::default_transports(target),
        };
        let cs: Vec<CodecId> = match codecs {
            Some(v) => v,
            None => {
                let mut v: Vec<CodecId> = Vec::new();
                v.push(CodecId::H264);
                v.push(CodecId::Aac);
                v
            },
        };
        assert(cs@ =~= announced_codecs(codecs));
        match self.registry.publish(endpoint_id, visibility, delivery, ts, cs, now) {
            Ok(manifest) => {
                let ghost mid = self@;
                assert(mid =~= KernelModel { registry: mid.registry, ..old(self)@ });
                let action = self.apply_discoverable();
                assert(self@.registry == mid.registry);
                Ok(Published { manifest, action })
            },
            Err(e) => {
                assert(self@ =~= old(self)@);
                Err(e)
            },
        }
    }

    /// Announces an endpoint to everybody who may see it, to be pulled, and returns the name of
    /// its stream.
    pub fn publish(&mut self, endpoint_id: EndpointId, visibility: Visibility, now: u64) -> (r:
        Result<ShareHandle, Error>)
        requires
            old(self).wf(),
        ensures
            final(self).wf(),
            exists|m: Result<Published, Error>|
                {
                    &&& #[trigger] announced(
                        old(self)@,
                        final(self)@,
                        endpoint_id,
                        visibility@,
                        Delivery::Pull,
                        announced_transports(old(self)@.registry, endpoint_id, None),
                        announced_codecs(None),
                        now,
                        m,
                    )
                    &&& match m {
                        Ok(x) => r matches Ok(h) && h.action == x.action && h.stream_id@
                            == stream_id_of(
                            endpoint_id,
                            x.manifest.transport_profile,
                            x.manifest.pick_rule,
                        ),
                        Err(e) => r == Err::<ShareHandle, Error>(e),
                    }
                },
    {
        let m = self.publish_endpoint(endpoint_id, visibility, Delivery::Pull, None, None, now);
        match m {
            Ok(x) => {
                let stream_id: String = derive_stream_id(
                    endpoint_id,
                    x.manifest.transport_profile,
                    x.manifest.pick_rule,
                );
                Ok(ShareHandle { stream_id, action: x.action })
            },
            Err(e) => Err(e),
        }
    }

    /// Takes the announcement of an endpoint back. A share of it is stopped first. What the node
    /// tells about itself is to be brought up to date afterwards.
    pub fn unpublish_endpoint(&mut self, endpoint_id: EndpointId, now: u64) -> (r: Unpublished)
        requires
            old(self).wf(),
        ensures
            final(self).wf(),
            unpublished(old(self)@, final(self)@, endpoint_id, now, r),
    {
        let engine = self.stop(endpoint_id, now);
        let ghost stopped = self@;
        assert(share_stopped(old(self)@, stopped, endpoint_id, now, engine));
        match self.registry.unpublish(endpoint_id, now) {
            Ok(()) => {
                let ghost mid = self@;
                assert(mid =~= KernelModel { registry: mid.registry, ..stopped });
                let action = self.apply_discoverable();
                let r = Unpublished { result: Ok(action), engine };
                assert(withdrawn_after(stopped, self@, endpoint_id, now, r));
                r
            },
            Err(e) => {
                assert(self@ =~= stopped);
                let r = Unpublished { result: Err(e), engine };
                assert(withdrawn_after(stopped, self@, endpoint_id, now, r));
                r
            },
        }
    }

    /// The endpoint that is shared over a stream, or, when there is none, the announced endpoint
    /// of this node whose stream has that name.
    pub fn endpoint_id_of_stream(&self, stream_id: &str) -> (r: Option<EndpointId>)
        requires
            self.wf(),
        ensures
            self@.shares.dom().contains(stream_id@) ==> r == Some(
                self@.shares[stream_id@].endpoint_id,
            ),
            !self@.shares.dom().contains(stream_id@) ==> match r {
                Some(id) => announced_as(self@.registry, id, stream_id@),
                None => forall|id: EndpointId| !announced_as(self@.registry, id, stream_id@),
            },
    {
        match self.active_share_by_stream(stream_id) {
            Some(s) => {
                return Some(s.endpoint_id);
            },
            None => {},
        }
        let v = self.registry.published_manifests();
        proof {
            self.registry.lemma_consistent();
        }
        let ghost own = Some(self@.registry.self_node);
        let ghost ks = choose|keys: Seq<RefModel>|
            {
                &&& #[trigger] lists(
                    self@.registry.mounts,
                    own,
                    true,
                    keys,
                )
                &&& v@.len() == keys.len()
                &&& forall|i: int|
                    0 <= i < v@.len() ==> (#[trigger] v@[i])@
                        == self@.registry.mounts[keys[i]].manifest()
            };
        let mut i: usize = 0;
        while i < v.len()
            invariant
                self.wf(),
                self@.registry.consistent(),
                !self@.shares.dom().contains(stream_id@),
                own == Some(self@.registry.self_node),
                lists(self@.registry.mounts, own, true, ks),
                v@.len() == ks.len(),
                forall|i: int|
                    0 <= i < v@.len() ==> (#[trigger] v@[i])@
                        == self@.registry.mounts[ks[i]].manifest(),
                i <= v@.len(),
                forall|j: int|
                    0 <= j < i ==> !announced_as(
                        self@.registry,
                        (#[trigger] ks[j]).id,
                        stream_id@,
                    ),
            decreases v.len() - i,
        {
            let m: &EndpointManifest = &v[i];
            let id = EndpointId::new(m.kind, m.endpoint_id);
            proof {
                let k = ks[i as int];
                assert(ks.contains(k));
                assert(k == self@.registry.own(k.id));
                assert(m@.id == k.id);
            }
            let sid: String = derive_stream_id(id, m.transport_profile, m.pick_rule);
            if same(sid.as_str(), stream_id) {
                return Some(id);
            }
            i += 1;
        }
        proof {
            assert forall|id: EndpointId| !announced_as(self@.registry, id, stream_id@) by {
                if announced_as(self@.registry, id, stream_id@) {
                    let k = self@.registry.own(id);
                    assert(ks.contains(k));
                    let j = choose|j: int| 0 <= j < ks.len() && ks[j] == k;
                    assert(!announced_as(self@.registry, ks[j].id, stream_id@));
                }
            }
        }
        None
    }

    /// Takes back the announcement whose stream has the given name.
    pub fn unpublish(&mut self, stream_id: &str, now: u64) -> (r: Unpublished)
        requires
            old(self).wf(),
        ensures
            final(self).wf(),
            handle_unpublished(old(self)@, final(self)@, stream_id@, now, r),
    {
        match self.endpoint_id_of_stream(stream_id) {
            None => Unpublished {
                result: Err(
                    Error::Message(
                        join3(
                            "发布句柄 ",
                            stream_id,
                            " 对应端点未找到（未发布或句柄过期）",
                        ),
                    ),
                ),
                engine: None,
            },
            Some(id) => {
                let r = self.unpublish_endpoint(id, now);
                assert(handle_of(old(self)@, id, stream_id@));
                r
            },
        }
    }

    /// Whether there is a number left for one more file endpoint.
    pub fn can_publish_file(&self) -> (r: bool)
        requires
            self.wf(),
        ensures
            r == self@.registry.file_id_left(),
    {
        self.registry.free_file_id().is_some()
    }

    /// Shares a local file as an endpoint of its own. What the node tells about itself is to be
    /// brought up to date afterwards.
    pub fn publish_file_endpoint(
        &mut self,
        offer: &FileOffer,
        visibility: Visibility,
        delivery: Delivery,
        now: u64,
    ) -> (r: Result<Published, Error>)
        requires
            old(self).wf(),
            old(self)@.registry.file_id_left(),
        ensures
            final(self).wf(),
            ({
                let mid = KernelModel { registry: final(self)@.registry, ..old(self)@ };
                match r {
                    Ok(p) => {
                        &&& file_outcome(
                            old(self)@.registry,
                            final(self)@.registry,
                            offer,
                            visibility@,
                            delivery,
                            now,
                            Ok(p.manifest),
                        )
                        &&& announcement_settled(mid, final(self)@, p.action)
                    },
                    Err(e) => {
                        &&& file_outcome(
                            old(self)@.registry,
                            final(self)@.registry,
                            offer,
                            visibility@,
                            delivery,
                            now,
                            Err(e),
                        )
                        &&& final(self)@ == mid
                    },
                }
            }),
    {
        match self.registry.publish_file(offer, visibility, delivery, now) {
            Ok(manifest) => {
                let ghost mid = self@;
                assert(mid =~= KernelModel { registry: mid.registry, ..old(self)@ });
                let action = self.apply_discoverable();
                assert(self@.registry == mid.registry);
                Ok(Published { manifest, action })
            },
            Err(e) => {
                assert(self@ =~= KernelModel { registry: self@.registry, ..old(self)@ });
                Err(e)
            },
        }
    }

    /// The file behind a file endpoint of this node.
    pub fn file_source(&self, endpoint_id: EndpointId) -> (r: Option<FileSource>)
        requires
            self.wf(),
        ensures
            match r {
                Some(f) => self@.registry.files.dom().contains(self@.registry.own(endpoint_id))
                    && f@ == self@.registry.files[self@.registry.own(endpoint_id)],
                None => !self@.registry.files.dom().contains(self@.registry.own(endpoint_id)),
            },
    {
        match self.registry.file_source(endpoint_id) {
            Some(f) => Some(f.clone()),
            None => None,
        }
    }

    /// What others are told about an endpoint of this node.
    pub fn endpoint_manifest(&self, endpoint_id: EndpointId) -> (r: Option<EndpointManifest>)
        requires
            self.wf(),
        ensures
            match r {
                Some(m) => self@.registry.mounts.dom().contains(self@.registry.own(endpoint_id))
                    && m@ == self@.registry.mounts[self@.registry.own(endpoint_id)].manifest(),
                None => !self@.registry.mounts.dom().contains(self@.registry.own(endpoint_id)),
            },
    {
        self.registry.manifest(endpoint_id)
    }

    /// All endpoints of this node, in listing order.
    pub fn endpoint_catalog(&self) -> (r: Vec<EndpointManifest>)
        requires
            self.wf(),
        ensures
            manifests_listed(
                self@.registry.mounts,
                Some(self@.registry.self_node),
                false,
                r@,
            ),
    {
        self.registry.manifests()
    }

    /// The announced endpoints of this node, in listing order.
    pub fn published_endpoints(&self) -> (r: Vec<EndpointManifest>)
        requires
            self.wf(),
        ensures
            manifests_listed(self@.registry.mounts, Some(self@.registry.self_node), true, r@),
    {
        self.registry.published_manifests()
    }

    /// All endpoints of this node, as they are shown on its card.
    pub fn local_catalog(&self) -> (r: LocalCatalog)
        requires
            self.wf(),
        ensures
            manifests_listed(
                self@.registry.mounts,
                Some(self@.registry.self_node),
                false,
                r.endpoints@,
            ),
    {
        LocalCatalog { endpoints: self.endpoint_catalog() }
    }

    /// Stops the share of an endpoint; nothing happens when it is not shared. The result is the push
    /// that is to be stopped.
    pub fn stop_endpoint_share(&mut self, endpoint_id: EndpointId, now: u64) -> (r: Option<
        RunningStream,
    >)
        requires
            old(self).wf(),
        ensures
            final(self).wf(),
            share_stopped(old(self)@, final(self)@, endpoint_id, now, r),
    {
        self.stop(endpoint_id, now)
    }

    /// Takes over the directory of another node.
    pub fn register_remote_directory(&mut self, dir: &EndpointDir, addr: &str)
        requires
            old(self).wf(),
        ensures
            final(self).wf(),
            final(self)@ == (KernelModel {
                registry: old(self)@.registry.with_directory(
                    dir.node.node_id@,
                    dir.node.node_name@,
                    addr@,
                    dir.endpoints@,
                ),
                ..old(self)@
            }),
    {
        self.registry.register_remote_directory(dir, addr);
        assert(self@ =~= KernelModel { registry: self@.registry, ..old(self)@ });
    }

    /// The strategy that a subscriber of an endpoint of some node gets.
    pub fn resolve_strategy(
        &self,
        node_id: &str,
        endpoint_id: EndpointId,
        strategy_id: Option<&str>,
    ) -> (r: Option<EndpointStrategy>)
        requires
            self.wf(),
        ensures
            strategy_view(r) == self@.registry.resolved(
                node_id@,
                endpoint_id,
                str_view(strategy_id),
            ),
    {
        self.registry.resolve_strategy(node_id, endpoint_id, strategy_id)
    }

    /// Builds the receiving end of a subscription, or says that nothing builds its family.
    pub fn subscribe_via_endpoint(
        &self,
        spec: &SubscribeSpec,
        out_dir: Option<&str>,
        temp_dir: &str,
    ) -> (r: Result<SubscribeEndpoint, Error>)
        requires
            self.wf(),
        ensures
            ({
                let class = EndpointClass::of(spec.kind);
                if self@.registry.factories.dom().contains(class) {
                    r matches Ok(e) && e@ == built(
                        self@.registry.factories[class],
                        spec.kind,
                        spec.endpoint(),
                        match str_view(out_dir) {
                            Some(d) => d,
                            None => temp_dir@,
                        },
                    )
                } else {
                    r matches Err(Error::Message(t)) && t@ == "端点「"@ + spec.endpoint().text()
                        + "」的订阅目标类型暂无订阅端点宿主（生成订阅端点失败）"@
                }
            }),
    {
        match self.registry.generate_subscribe_endpoint(spec, out_dir, temp_dir) {
            Some(e) => Ok(e),
            None => {
                let id = EndpointId::new(spec.kind, spec.endpoint_id);
                Err(
                    Error::Message(
                        join3(
                            "端点「",
                            id.to_text().as_str(),
                            "」的订阅目标类型暂无订阅端点宿主（生成订阅端点失败）",
                        ),
                    ),
                )
            },
        }
    }

    /// Sets what builds the receiving ends of a family.
    pub fn register_subscribe_factory(
        &mut self,
        class: EndpointClass,
        factory: SubscribeEndpointFactory,
    )
        requires
            old(self).wf(),
        ensures
            final(self).wf(),
            final(self)@ == (KernelModel {
                registry: RegistryModel {
                    factories: old(self)@.registry.factories.insert(class, factory),
                    ..old(self)@.registry
                },
                ..old(self)@
            }),
    {
        self.registry.register_subscribe_factory(class, factory);
        assert(self@ =~= KernelModel { registry: self@.registry, ..old(self)@ });
    }

    /// Whether one more subscriber of an endpoint can be counted.
    pub fn can_count_subscriber(&self, endpoint_id: EndpointId) -> (r: bool)
        requires
            self.wf(),
        ensures
            r == self@.registry.subscriber_left(endpoint_id),
    {
        self.registry.subscriber_count(endpoint_id) < 4294967295
    }

    /// Notes that a node subscribes to an endpoint of this node.
    pub fn note_endpoint_subscribed(&mut self, endpoint_id: EndpointId, node_id: &str, now: u64)
        requires
            old(self).wf(),
            old(self)@.registry.subscriber_left(endpoint_id),
        ensures
            final(self).wf(),
            final(self)@ == (KernelModel {
                registry: old(self)@.registry.with_subscriber(endpoint_id, node_id@, now),
                ..old(self)@
            }),
    {
        self.registry.note_subscriber(endpoint_id, node_id, now);
        assert(self@ =~= KernelModel { registry: self@.registry, ..old(self)@ });
    }

    /// Notes that a node no longer subscribes to an endpoint of this node, and returns how many
    /// still do. When the last one left, the share is stopped at once; the push that is to be
    /// stopped is the second part of the result.
    pub fn note_endpoint_unsubscribed(
        &mut self,
        endpoint_id: EndpointId,
        node_id: &str,
        now: u64,
    ) -> (r: (u32, Option<RunningStream>))
        requires
            old(self).wf(),
        ensures
            final(self).wf(),
            r.0 == old(self)@.registry.subscribers_without(endpoint_id, node_id@),
            ({
                let mid = KernelModel {
                    registry: old(self)@.registry.without_subscriber(endpoint_id, node_id@, now),
                    ..old(self)@
                };
                if r.0 == 0 {
                    share_stopped(mid, final(self)@, endpoint_id, now, r.1)
                } else {
                    final(self)@ == mid && r.1 is None
                }
            }),
    {
        let remaining: u32 = self.registry.note_unsubscriber(endpoint_id, node_id, now);
        assert(self@ =~= KernelModel {
            registry: old(self)@.registry.without_subscriber(endpoint_id, node_id@, now),
            ..old(self)@
        });
        if remaining == 0 {
            let engine = self.stop(endpoint_id, now);
            (remaining, engine)
        } else {
            (remaining, None)
        }
    }

    /// Takes in a change of the data plane: a stream that ended is cleaned up; when the last
    /// watcher of a share left, the share is to be checked later; the number of watchers becomes
    /// the number of subscribers.
    pub fn on_relay_event(&mut self, event: RelayEvent, now: u64) -> (r: EventOutcome)
        requires
            old(self).wf(),
        ensures
            final(self).wf(),
            event_taken(old(self)@, final(self)@, event, now, r),
    {
        match event {
            RelayEvent::StreamStarted { stream_id } => EventOutcome {
                event: KernelEvent::StreamStarted { session_id: stream_id },
                reaped: None,
                recheck: false,
            },
            RelayEvent::StreamEnded { stream_id } => {
                let done = self.reap_stream(stream_id.as_str(), now);
                EventOutcome {
                    event: KernelEvent::StreamEnded { session_id: stream_id },
                    reaped: Some(done),
                    recheck: false,
                }
            },
            RelayEvent::WatchersChanged { stream_id, watchers } => {
                let share = self.active_share_by_stream(stream_id.as_str());
                let recheck: bool = watchers == 0 && share.is_some();
                match share {
                    Some(s) => {
                        let _ = self.registry.set_state(
                            s.endpoint_id,
                            EndpointState::Active,
                            watchers,
                            now,
                        );
                        assert(self@ =~= KernelModel { registry: self@.registry, ..old(self)@ });
                    },
                    None => {},
                }
                EventOutcome {
                    event: KernelEvent::WatchersChanged { session_id: stream_id, watchers },
                    reaped: None,
                    recheck,
                }
            },
        }
    }

    /// All nodes with their endpoints, in the order of their ids.
    pub fn registry_nodes(&self) -> (r: Vec<NodeRegistration>)
        requires
            self.wf(),
        ensures
            r@.len() == self@.registry.nodes.dom().len(),
            forall|i: int|
                0 <= i < r@.len() ==> {
                    &&& self@.registry.nodes.dom().contains((#[trigger] r@[i])@.node_id)
                    &&& r@[i]@ == node_registration(
                        self@.registry.mounts,
                        self@.registry.nodes[r@[i]@.node_id],
                    )
                },
            forall|i: int, j: int|
                #![trigger r@[i], r@[j]]
                0 <= i < j < r@.len() ==> text_le(r@[i]@.node_id, r@[j]@.node_id)
                    && r@[i]@.node_id != r@[j]@.node_id,
    {
        self.registry.node_registrations()
    }
}

/// Whether an endpoint of this node is announced and its stream has the given name.
pub open spec fn announced_as(
    registry: RegistryModel,
    id: EndpointId,
    stream_id: Seq<char>,
) -> bool {
    let key = registry.own(id);
    &&& registry.mounts.dom().contains(key)
    &&& registry.mounts[key].published
    &&& stream_id == stream_id_of(
        id,
        registry.mounts[key].transport_profile,
        registry.mounts[key].strategies[0].pick,
    )
}

/// Whether a stream name leads to an endpoint of this node.
pub open spec fn handle_of<P: AuthPolicy, D: DataPlaneBackend>(
    k: KernelModel<P, D>,
    id: EndpointId,
    stream_id: Seq<char>,
) -> bool {
    if k.shares.dom().contains(stream_id) {
        id == k.shares[stream_id].endpoint_id
    } else {
        announced_as(k.registry, id, stream_id)
    }
}

/// What announcing an endpoint of this node does: the registry takes it up, and what the node tells
/// about itself follows.
pub open spec fn announced<P: AuthPolicy, D: DataPlaneBackend>(
    pre: KernelModel<P, D>,
    post: KernelModel<P, D>,
    id: EndpointId,
    visibility: VisibilityModel,
    delivery: Delivery,
    transports: Seq<TransportPreference>,
    codecs: Seq<CodecId>,
    now: u64,
    r: Result<Published, Error>,
) -> bool {
    let mid = KernelModel {
        registry: RegistryModel { mounts: post.registry.mounts, ..pre.registry },
        ..pre
    };
    match r {
        Ok(p) => {
            &&& publish_outcome(
                pre.registry.mounts,
                post.registry.mounts,
                pre.registry.own(id),
                visibility,
                delivery,
                transports,
                codecs,
                now,
                Ok(p.manifest),
            )
            &&& announcement_settled(mid, post, p.action)
        },
        Err(e) => {
            &&& publish_outcome(
                pre.registry.mounts,
                post.registry.mounts,
                pre.registry.own(id),
                visibility,
                delivery,
                transports,
                codecs,
                now,
                Err(e),
            )
            &&& post == pre
        },
    }
}

/// What withdrawing an announcement does once no share of the endpoint is left.
pub open spec fn withdrawn_after<P: AuthPolicy, D: DataPlaneBackend>(
    stopped: KernelModel<P, D>,
    post: KernelModel<P, D>,
    id: EndpointId,
    now: u64,
    r: Unpublished,
) -> bool {
    match r.result {
        Ok(action) => {
            &&& unpublish_outcome(stopped.registry, post.registry, id, now, Ok(()))
            &&& announcement_settled(
                KernelModel { registry: post.registry, ..stopped },
                post,
                action,
            )
        },
        Err(e) => {
            &&& unpublish_outcome(stopped.registry, post.registry, id, now, Err(e))
            &&& post == stopped
        },
    }
}

/// What taking an announcement back does: a share of the endpoint is stopped, then the
/// announcement is withdrawn.
pub open spec fn unpublished<P: AuthPolicy, D: DataPlaneBackend>(
    pre: KernelModel<P, D>,
    post: KernelModel<P, D>,
    id: EndpointId,
    now: u64,
    r: Unpublished,
) -> bool {
    exists|stopped: KernelModel<P, D>|
        #[trigger] share_stopped(pre, stopped, id, now, r.engine) && withdrawn_after(
            stopped,
            post,
            id,
            now,
            r,
        )
}

/// What taking an announcement back by the name of its stream does.
pub open spec fn handle_unpublished<P: AuthPolicy, D: DataPlaneBackend>(
    pre: KernelModel<P, D>,
    post: KernelModel<P, D>,
    stream_id: Seq<char>,
    now: u64,
    r: Unpublished,
) -> bool {
    if exists|id: EndpointId| handle_of(pre, id, stream_id) {
        exists|id: EndpointId|
            #[trigger] handle_of(pre, id, stream_id) && unpublished(pre, post, id, now, r)
    } else {
        &&& post == pre
        &&& r.engine is None
        &&& r.result matches Err(Error::Message(t)) && t@ == "发布句柄 "@ + stream_id
            + " 对应端点未找到（未发布或句柄过期）"@
    }
}

/// What a change of the data plane leads to.
pub open spec fn event_taken<P: AuthPolicy, D: DataPlaneBackend>(
    pre: KernelModel<P, D>,
    post: KernelModel<P, D>,
    event: RelayEvent,
    now: u64,
    r: EventOutcome,
) -> bool {
    match event {
        RelayEvent::StreamStarted { stream_id } => {
            &&& post == pre
            &&& r.event == (KernelEvent::StreamStarted { session_id: stream_id })
            &&& r.reaped is None
            &&& !r.recheck
        },
        RelayEvent::StreamEnded { stream_id } => {
            &&& reaped(pre, post, stream_id@, now)
            &&& r.reaped matches Some(x) && reaped_rest(
                pre,
                stream_id@,
                x,
            )
            &&& r.event == (KernelEvent::StreamEnded { session_id: stream_id })
            &&& !r.recheck
        },
        RelayEvent::WatchersChanged { stream_id, watchers } => {
            &&& post == (if pre.shares.dom().contains(stream_id@) {
                KernelModel {
                    registry: pre.registry.with_state(
                        pre.shares[stream_id@].endpoint_id,
                        EndpointState::Active,
                        watchers,
                        now,
                    ),
                    ..pre
                }
            } else {
                pre
            })
            &&& r.event == (KernelEvent::WatchersChanged { session_id: stream_id, watchers })
            &&& r.reaped is None
            &&& r.recheck == (watchers == 0 && pre.shares.dom().contains(stream_id@))
        },
    }
}

/// The name that announcing an endpoint returns is the handle by which the announcement is taken
/// back: with it, the endpoint is no longer announced.
pub proof fn law_announcement_is_taken_back_by_its_handle<P: AuthPolicy, D: DataPlaneBackend>(
    pre: KernelModel<P, D>,
    mid: KernelModel<P, D>,
    post: KernelModel<P, D>,
    id: EndpointId,
    visibility: VisibilityModel,
    delivery: Delivery,
    transports: Seq<TransportPreference>,
    codecs: Seq<CodecId>,
    then: u64,
    p: Published,
    now: u64,
    r: Unpublished,
)
    requires
        pre.registry.consistent(),
        announced(pre, mid, id, visibility, delivery, transports, codecs, then, Ok(p)),
        ({
            let sid = stream_id_of(id, p.manifest.transport_profile, p.manifest.pick_rule);
            &&& pre.shares.dom().contains(sid) ==> pre.shares[sid].endpoint_id == id
            &&& handle_unpublished(mid, post, sid, now, r)
        }),
    ensures
        r.result is Ok,
        post.registry.mounts.dom().contains(post.registry.own(id)),
        !post.registry.mounts[post.registry.own(id)].published,
{
    let m = p.manifest;
    let sid = stream_id_of(id, m.transport_profile, m.pick_rule);
    let key = pre.registry.own(id);
    assert(m@ == mid.registry.mounts[key].manifest());
    assert(handle_of(mid, id, sid));
    let found = choose|x: EndpointId|
        #[trigger] handle_of(mid, x, sid) && unpublished(mid, post, x, now, r);
    if !mid.shares.dom().contains(sid) {
        let k = mid.registry.own(found);
        law_stream_id_tells_endpoint(
            found,
            mid.registry.mounts[k].transport_profile,
            mid.registry.mounts[k].strategies[0].pick,
            id,
            m.transport_profile,
            m.pick_rule,
        );
    }
    assert(found == id);
    let stopped = choose|x: KernelModel<P, D>|
        #[trigger] share_stopped(mid, x, id, now, r.engine) && withdrawn_after(
            x,
            post,
            id,
            now,
            r,
        );
    assert(stopped.registry.mounts.dom().contains(key));
    assert(stopped.registry.mounts[key].published);
}

/// An endpoint whose announcement is taken back is no longer shared over the stream it was shared
/// over, so that who watched it is cut off.
pub proof fn law_withdrawal_stops_the_share<P: AuthPolicy, D: DataPlaneBackend>(
    pre: KernelModel<P, D>,
    post: KernelModel<P, D>,
    id: EndpointId,
    now: u64,
    r: Unpublished,
    only: Seq<char>,
)
    requires
        unpublished(pre, post, id, now, r),
        pre.shares.dom().contains(only),
        pre.shares[only].endpoint_id == id,
        forall|s: Seq<char>| #[trigger]
            pre.shares.dom().contains(s) && pre.shares[s].endpoint_id == id ==> s == only,
    ensures
        !shared(post.shares, id),
        !post.control.sessions@.dom().contains(only),
{
    let stopped = choose|x: KernelModel<P, D>|
        #[trigger] share_stopped(pre, x, id, now, r.engine) && withdrawn_after(
            x,
            post,
            id,
            now,
            r,
        );
    assert(shared(pre.shares, id));
    assert forall|s: Seq<char>| #[trigger] post.shares.dom().contains(s) implies post.shares[s].endpoint_id
        != id by {
        assert(stopped.shares.dom().contains(s));
        assert(pre.shares.dom().contains(s));
    }
}

/// An endpoint that this node offers is known as it was declared: under its id and name, available
/// exactly when it could be probed, with its strategy and profile, not announced, idle and without
/// subscribers. One that is known already stays as it is.
pub proof fn law_seeded_endpoint_is_known<P: AuthPolicy, D: DataPlaneBackend>(
    app: &mut Kernel<P, D>,
    ep: SeedEndpoint,
    now: u64,
    added: bool,
    before: Option<EndpointManifest>,
    after: Option<EndpointManifest>,
)
    requires
        call_ensures(Kernel::<P, D>::seed_endpoint, (app, ep, now), added),
        call_ensures(Kernel::<P, D>::endpoint_manifest, (&*old(app), ep.id), before),
        call_ensures(Kernel::<P, D>::endpoint_manifest, (&*final(app), ep.id), after),
    ensures
        added <==> before is None,
        after is Some,
        before matches Some(m) ==> after->0@ == m@,
        added ==> ({
            let m = after->0;
            &&& m.kind == ep.id.kind
            &&& m.endpoint_id == ep.id.id
            &&& m.name@ == ep.name@
            &&& m.available <==> ep.probe is Ok
            &&& ep.probe matches Err(e) ==> (m.last_error matches Some(t) && t@ == e@)
            &&& !m.published
            &&& m.transport_profile == ep.transport_profile
            &&& m.pick_rule == ep.strategy.pick
            &&& m.strategies@.len() == 1
            &&& m.strategies@[0]@ == ep.strategy@
            &&& m.state is Idle
            &&& m.subscribers == 0
            &&& m.updated_at == now
        }),
{
    if added {
        let m = after->0;
        assert(strategy_models(m.strategies@) == seq![ep.strategy@]);
        assert(strategy_models(m.strategies@).len() == m.strategies@.len());
        assert(strategy_models(m.strategies@)[0] == m.strategies@[0]@);
    }
}

/// An endpoint that is announced without saying how its data travels is offered over QUIC first; a
/// live one over SRT next, and each over the WebSocket at last. Pictures are H.264 and sound is AAC.
pub proof fn law_announcement_has_standard_ways<P: AuthPolicy, D: DataPlaneBackend>(
    app: &mut Kernel<P, D>,
    id: EndpointId,
    visibility: Visibility,
    delivery: Delivery,
    now: u64,
    p: Published,
    target: Option<TargetKind>,
)
    requires
        call_ensures(
            Kernel::<P, D>::publish_endpoint,
            (app, id, visibility, delivery, None, None, now),
            Ok::<Published, Error>(p),
        ),
        call_ensures(UnifiedRegistry::target, (&old(app).registry, id), target),
    ensures
        ({
            let v = p.manifest.transports@;
            let n = v.len() as int;
            &&& n >= 2
            &&& v[0].transport is Quic
            &&& v[n - 1].transport is Ws
            &&& target == Some(TargetKind::Live) ==> n == 3 && v[1].transport is Srt
            &&& target == Some(TargetKind::Determined) ==> n == 2
            &&& forall|i: int| 0 <= i < n ==> (#[trigger] v[i]).priority == i
        }),
        p.manifest.codecs@ == seq![CodecId::H264, CodecId::Aac],
        p.manifest.published,
        p.manifest.visibility@ == visibility@,
        p.manifest.delivery == delivery,
        p.manifest.updated_at == now,
{
}

/// An announcement that is taken back leaves an endpoint that nobody sees, gets or watches: it is
/// still there under its name, but not announced, without a way to it, idle, without subscribers and
/// without a file, and it is not shared over the stream it was shared over.
pub proof fn law_withdrawn_endpoint_is_closed<P: AuthPolicy, D: DataPlaneBackend>(
    app: &mut Kernel<P, D>,
    id: EndpointId,
    now: u64,
    r: Unpublished,
    before: EndpointManifest,
    after: Option<EndpointManifest>,
    file: Option<FileSource>,
)
    requires
        old(app).wf(),
        call_ensures(Kernel::<P, D>::unpublish_endpoint, (app, id, now), r),
        call_ensures(Kernel::<P, D>::endpoint_manifest, (&*old(app), id), Some(before)),
        before.published,
        call_ensures(Kernel::<P, D>::endpoint_manifest, (&*final(app), id), after),
        call_ensures(Kernel::<P, D>::file_source, (&*final(app), id), file),
    ensures
        r.result is Ok,
        after matches Some(m) && ({
            &&& m.name@ == before.name@
            &&& !m.published
            &&& m.visibility is Public
            &&& m.transports@.len() == 0
            &&& m.codecs@.len() == 0
            &&& m.state is Idle
            &&& m.subscribers == 0
            &&& m.updated_at == now
            &&& m.available == before.available
        }),
        file is None,
        (exists|s: Seq<char>| #[trigger]
            old(app).active_shares@.dom().contains(s) && old(app).active_shares@[s].endpoint_id
                == id) ==> final(app).active_shares@.dom().len() + 1 == old(app).active_shares@.dom().len(),
{
    let pre = old(app)@;
    let post = final(app)@;
    let stopped = choose|x: KernelModel<P, D>|
        #[trigger] share_stopped(pre, x, id, now, r.engine) && withdrawn_after(x, post, id, now, r);
    let key = pre.registry.own(id);
    assert(stopped.registry.mounts.dom().contains(key));
    assert(stopped.registry.mounts[key].published);
    assert(stopped.registry.mounts[key].name == before.name@);
    assert(post.shares == stopped.shares);
    old(app).active_shares.lemma_keys();
    if shared(pre.shares, id) {
        let s = choose|s: Seq<char>|
            {
                &&& #[trigger] pre.shares.dom().contains(s)
                &&& pre.shares[s].endpoint_id == id
                &&& reaped(pre, stopped, s, now)
                &&& running_view(r.engine) == (if pre.engines.dom().contains(s) {
                    Some(pre.engines[s])
                } else {
                    None
                })
            };
        assert(stopped.shares.dom() =~= pre.shares.dom().remove(s));
    }
}

/// What is not announced cannot be taken back.
pub proof fn law_only_announced_endpoints_are_withdrawn<P: AuthPolicy, D: DataPlaneBackend>(
    app: &mut Kernel<P, D>,
    id: EndpointId,
    now: u64,
    r: Unpublished,
    before: Option<EndpointManifest>,
)
    requires
        call_ensures(Kernel::<P, D>::unpublish_endpoint, (app, id, now), r),
        call_ensures(Kernel::<P, D>::endpoint_manifest, (&*old(app), id), before),
        before matches Some(m) ==> !m.published,
    ensures
        r.result is Err,
{
    let pre = old(app)@;
    let stopped = choose|x: KernelModel<P, D>|
        #[trigger] share_stopped(pre, x, id, now, r.engine) && withdrawn_after(
            x,
            final(app)@,
            id,
            now,
            r,
        );
}

/// A file that is shared becomes an endpoint of its own, with a number that no file endpoint of this
/// node had: announced under its name to those who may see it, read in order and without loss, and
/// found again with its path, name and size.
pub proof fn law_shared_file_is_found_again<P: AuthPolicy, D: DataPlaneBackend>(
    app: &mut Kernel<P, D>,
    offer: &FileOffer,
    name: String,
    meta: FileMeta,
    visibility: Visibility,
    delivery: Delivery,
    now: u64,
    r: Result<Published, Error>,
    earlier: Option<EndpointManifest>,
    later: Option<EndpointManifest>,
    file: Option<FileSource>,
    id: EndpointId,
)
    requires
        call_ensures(
            Kernel::<P, D>::publish_file_endpoint,
            (app, offer, visibility, delivery, now),
            r,
        ),
        offer.meta == Ok::<FileMeta, String>(meta),
        meta.is_file,
        offer.probe is Ok,
        offer.file_name == Some(name),
        r matches Ok(p) ==> id.kind == p.manifest.kind && id.id == p.manifest.endpoint_id,
        call_ensures(Kernel::<P, D>::endpoint_manifest, (&*old(app), id), earlier),
        call_ensures(Kernel::<P, D>::endpoint_manifest, (&*final(app), id), later),
        call_ensures(Kernel::<P, D>::file_source, (&*final(app), id), file),
    ensures
        r matches Ok(p) && ({
            let m = p.manifest;
            &&& m.kind is File
            &&& m.name@ == name@
            &&& m.published
            &&& m.available
            &&& m.visibility@ == visibility@
            &&& m.delivery == delivery
            &&& m.transport_profile is Lossless
            &&& m.pick_rule is StrictOrdered
            &&& later matches Some(x) && x@ == m@
        }),
        earlier is None,
        file matches Some(f) && f.path@ == offer.path@ && f.name@ == name@ && f.size == meta.size,
{
    let pre = old(app)@.registry;
    let post = final(app)@.registry;
    let r0 = match r {
        Ok(p) => Ok(p.manifest),
        Err(e) => Err(e),
    };
    assert(file_outcome(pre, post, offer, visibility@, delivery, now, r0));
    let n = choose|n: u32|
        #[trigger] first_free(pre.mounts, pre.self_node, pre.next_file, n) && file_shared(
            pre,
            post,
            offer,
            n,
            meta.size,
            visibility@,
            delivery,
            now,
            r0,
        );
}

/// What is no plain file, or cannot be asked about, is not shared.
pub proof fn law_only_files_are_shared<P: AuthPolicy, D: DataPlaneBackend>(
    app: &mut Kernel<P, D>,
    offer: &FileOffer,
    visibility: Visibility,
    delivery: Delivery,
    now: u64,
    r: Result<Published, Error>,
)
    requires
        call_ensures(
            Kernel::<P, D>::publish_file_endpoint,
            (app, offer, visibility, delivery, now),
            r,
        ),
        offer.meta matches Ok(m) ==> !m.is_file,
    ensures
        r is Err,
        final(app)@ == old(app)@,
{
}

/// A node that subscribes is counted once, however often it does so, and no longer when it leaves;
/// the count is told to the node that leaves.
pub proof fn law_subscriber_is_counted_once<P: AuthPolicy, D: DataPlaneBackend>(
    app: &mut Kernel<P, D>,
    id: EndpointId,
    node: &str,
    now: u64,
    before: EndpointManifest,
    after: Option<EndpointManifest>,
    again: &mut Kernel<P, D>,
    later: u64,
    then: Option<EndpointManifest>,
    left: &mut Kernel<P, D>,
    at: u64,
    gone: (u32, Option<RunningStream>),
)
    requires
        old(app).wf(),
        old(app)@.registry.mounts[old(app)@.registry.own(id)].counted(),
        call_ensures(Kernel::<P, D>::endpoint_manifest, (&*old(app), id), Some(before)),
        before.subscribers < u32::MAX,
        call_ensures(Kernel::<P, D>::note_endpoint_subscribed, (app, id, node, now), ()),
        call_ensures(Kernel::<P, D>::endpoint_manifest, (&*final(app), id), after),
        *old(again) == *final(app),
        call_ensures(Kernel::<P, D>::note_endpoint_subscribed, (again, id, node, later), ()),
        call_ensures(Kernel::<P, D>::endpoint_manifest, (&*final(again), id), then),
        *old(left) == *final(again),
        call_ensures(Kernel::<P, D>::note_endpoint_unsubscribed, (left, id, node, at), gone),
        !old(app)@.registry.mounts[old(app)@.registry.own(id)].subscriber_nodes.contains(node@),
    ensures
        after matches Some(m) && m.subscribers == before.subscribers + 1,
        then matches Some(m) && m.subscribers == before.subscribers + 1,
        gone.0 == before.subscribers,
        before.subscribers > 0 ==> gone.1 is None && final(left)@.shares == old(app)@.shares,
        before.subscribers == 0 ==> forall|s: Seq<char>| #[trigger]
            final(left)@.shares.dom().contains(s) ==> old(app)@.shares.dom().contains(s),
{
    let key = old(app)@.registry.own(id);
    let nodes = old(app)@.registry.mounts[key].subscriber_nodes;
    assert(nodes.insert(node@).len() == nodes.len() + 1);
    assert(nodes.insert(node@).insert(node@) =~= nodes.insert(node@));
    assert(nodes.insert(node@).remove(node@) =~= nodes);
}

/// The number of those who watch a shared stream becomes the number of subscribers of its endpoint;
/// when nobody watches any more the share is to be looked at again. Nothing is looked at again when
/// somebody watches, or when the stream is no share.
pub proof fn law_watchers_are_the_subscribers<P: AuthPolicy, D: DataPlaneBackend>(
    app: &mut Kernel<P, D>,
    stream_id: String,
    watchers: u32,
    now: u64,
    r: EventOutcome,
    id: EndpointId,
    before: EndpointManifest,
    after: Option<EndpointManifest>,
)
    requires
        call_ensures(
            Kernel::<P, D>::on_relay_event,
            (app, RelayEvent::WatchersChanged { stream_id, watchers }, now),
            r,
        ),
        call_ensures(Kernel::<P, D>::endpoint_manifest, (&*old(app), id), Some(before)),
        call_ensures(Kernel::<P, D>::endpoint_manifest, (&*final(app), id), after),
    ensures
        ({
            let shares = old(app).active_shares@;
            let over = shares.dom().contains(stream_id@) && shares[stream_id@].endpoint_id == id;
            &&& over ==> (after matches Some(m) && m.subscribers == watchers && m.state is Active
                && m.name@ == before.name@)
            &&& !shares.dom().contains(stream_id@) ==> (after matches Some(m) && m@ == before@)
            &&& r.recheck <==> watchers == 0 && shares.dom().contains(stream_id@)
        }),
        r.event matches KernelEvent::WatchersChanged { session_id, watchers: n } && session_id@
            == stream_id@ && n == watchers,
        r.reaped is None,
{
}

/// A stream that ended leaves nothing: no share over it, no push, no session; its endpoint is idle
/// and has no subscribers, and what is left to be done is told: the endpoint that was shared and the
/// push that is to be stopped.
pub proof fn law_ended_stream_is_cleaned_up<P: AuthPolicy, D: DataPlaneBackend>(
    app: &mut Kernel<P, D>,
    stream_id: String,
    now: u64,
    r: EventOutcome,
    id: EndpointId,
    before: EndpointManifest,
    after: Option<EndpointManifest>,
)
    requires
        call_ensures(
            Kernel::<P, D>::on_relay_event,
            (app, RelayEvent::StreamEnded { stream_id }, now),
            r,
        ),
        old(app).active_shares@.dom().contains(stream_id@),
        old(app).active_shares@[stream_id@].endpoint_id == id,
        call_ensures(Kernel::<P, D>::endpoint_manifest, (&*old(app), id), Some(before)),
        call_ensures(Kernel::<P, D>::endpoint_manifest, (&*final(app), id), after),
    ensures
        !final(app).active_shares@.dom().contains(stream_id@),
        !final(app)@.engines.dom().contains(stream_id@),
        !final(app).control.sessions@.dom().contains(stream_id@),
        after matches Some(m) && m.state is Idle && m.subscribers == 0 && m.name@ == before.name@
            && m.published == before.published,
        r.reaped matches Some(x) && x.endpoint_id == Some(id) && (x.engine is Some <==> old(app)@.engines.dom().contains(stream_id@)),
        r.event matches KernelEvent::StreamEnded { session_id } && session_id@ == stream_id@,
{
}

/// What another node's directory says is known afterwards: whoever subscribes to one of its endpoints
/// gets the strategy that was asked for when the directory has it, and the first one otherwise.
pub proof fn law_directory_gives_strategies<P: AuthPolicy, D: DataPlaneBackend>(
    app: &mut Kernel<P, D>,
    dir: &EndpointDir,
    addr: &str,
    node: &str,
    i: int,
    r: Option<EndpointStrategy>,
)
    requires
        old(app).wf(),
        call_ensures(Kernel::<P, D>::register_remote_directory, (app, dir, addr), ()),
        node@ == dir.node.node_id@,
        node@.len() > 0,
        node@ != old(app)@.registry.self_node,
        node@ != "local"@,
        0 <= i < dir.endpoints@.len(),
        dir.endpoints@[i].strategies@.len() > 0,
        forall|j: int|
            i < j < dir.endpoints@.len() ==> (#[trigger] dir.endpoints@[j])@.id
                != dir.endpoints@[i]@.id,
        call_ensures(
            Kernel::<P, D>::resolve_strategy,
            (&*final(app), node, dir.endpoints@[i]@.id, None),
            r,
        ),
    ensures
        r matches Some(s) && s@ == dir.endpoints@[i].strategies@[0]@,
{
    let pre = old(app)@.registry;
    lemma_remote_at(without_owner(pre.mounts, node@), node@, dir.endpoints@, i);
    let m = dir.endpoints@[i];
    assert(m@.strategies[0] == m.strategies@[0]@);
    assert(m@.effective_strategies() == m@.strategies);
}

proof fn lemma_remote_at(
    mounts: Map<RefModel, EntryModel>,
    node: Seq<char>,
    dir: Seq<EndpointManifest>,
    i: int,
)
    requires
        0 <= i < dir.len(),
        forall|j: int| i < j < dir.len() ==> (#[trigger] dir[j])@.id != dir[i]@.id,
    ensures
        ({
            let key = RefModel { owner: node, id: dir[i]@.id };
            let m = with_remote(mounts, node, dir);
            m.dom().contains(key) && m[key] == remote_entry(dir[i]@)
        }),
    decreases dir.len(),
{
    if i < dir.len() - 1 {
        let p = dir.drop_last();
        assert(dir[dir.len() - 1]@.id != dir[i]@.id);
        assert forall|j: int| i < j < p.len() implies (#[trigger] p[j])@.id != p[i]@.id by {
            assert(dir[j]@.id != dir[i]@.id);
        }
        lemma_remote_at(mounts, node, p, i);
    }
}

/// When this node learns who it is, its endpoints stay what they are, and it knows who it is.
pub proof fn law_identity_keeps_endpoints<P: AuthPolicy, D: DataPlaneBackend>(
    app: &mut Kernel<P, D>,
    who: DeviceIdentity,
    id: EndpointId,
    before: EndpointManifest,
    after: Option<EndpointManifest>,
    told: Option<DeviceIdentity>,
)
    requires
        call_ensures(Kernel::<P, D>::set_identity, (app, who), ()),
        call_ensures(Kernel::<P, D>::endpoint_manifest, (&*old(app), id), Some(before)),
        call_ensures(Kernel::<P, D>::endpoint_manifest, (&*final(app), id), after),
        call_ensures(Kernel::<P, D>::node_identity, (&*final(app),), told),
    ensures
        after matches Some(m) && m@ == before@,
        told matches Some(t) && t.device_id@ == who.device_id@ && t.device_name@
            == who.device_name@,
{
}

/// The receiving end of a subscription fits what is subscribed to: files are written to the folder
/// that is given, or to the temporary one, and what is seen or heard is decoded; each under the id
/// of the endpoint. This holds of a kernel that nobody told otherwise.
pub proof fn law_receiving_end_fits_the_endpoint<P: AuthPolicy, D: DataPlaneBackend>(
    platform: Platform,
    auth: P,
    app: Kernel<P, D>,
    spec: &SubscribeSpec,
    out_dir: Option<&str>,
    temp_dir: &str,
    r: Result<SubscribeEndpoint, Error>,
)
    requires
        call_ensures(Kernel::<P, D>::with_auth, (platform, auth), app),
        call_ensures(
            Kernel::<P, D>::subscribe_via_endpoint,
            (&app, spec, out_dir, temp_dir),
            r,
        ),
    ensures
        spec.kind is File ==> (r matches Ok(SubscribeEndpoint::File { id, name, out_dir: d })
            && id.kind == spec.kind && id.id == spec.endpoint_id && (out_dir matches Some(o) ==> d@
            == o@) && (out_dir is None ==> d@ == temp_dir@)),
        spec.kind is Screen || spec.kind is Camera || spec.kind is Mic ==> (r matches Ok(
            SubscribeEndpoint::Media { id, name, kind },
        ) && id.kind == spec.kind && id.id == spec.endpoint_id && kind == spec.kind),
{
}

/// The handle that announcing an endpoint returns leads back to the endpoint, which is announced as
/// it was asked for; taking the announcement back by that handle ends it.
pub proof fn law_handle_leads_to_its_endpoint<P: AuthPolicy, D: DataPlaneBackend>(
    app: &mut Kernel<P, D>,
    id: EndpointId,
    visibility: Visibility,
    then: u64,
    h: ShareHandle,
    name: &str,
    found: Option<EndpointId>,
    between: Option<EndpointManifest>,
    app2: &mut Kernel<P, D>,
    now: u64,
    r: Unpublished,
    after: Option<EndpointManifest>,
)
    requires
        old(app).wf(),
        name@ == h.stream_id@,
        old(app).active_shares@.dom().contains(name@) ==> old(app).active_shares@[name@].endpoint_id
            == id,
        call_ensures(
            Kernel::<P, D>::publish,
            (app, id, visibility, then),
            Ok::<ShareHandle, Error>(h),
        ),
        call_ensures(Kernel::<P, D>::endpoint_id_of_stream, (&*final(app), name), found),
        call_ensures(Kernel::<P, D>::endpoint_manifest, (&*final(app), id), between),
        *old(app2) == *final(app),
        call_ensures(Kernel::<P, D>::unpublish, (app2, name, now), r),
        call_ensures(Kernel::<P, D>::endpoint_manifest, (&*final(app2), id), after),
    ensures
        found == Some(id),
        between matches Some(m) && m.published && m.visibility@ == visibility@ && m.delivery is Pull,
        r.result is Ok,
        after matches Some(m) && !m.published,
{
    let pre = old(app)@;
    let mid = final(app)@;
    old(app).registry.lemma_consistent();
    let m = choose|m: Result<Published, Error>|
        {
            &&& #[trigger] announced(
                pre,
                mid,
                id,
                visibility@,
                Delivery::Pull,
                announced_transports(pre.registry, id, None),
                announced_codecs(None),
                then,
                m,
            )
            &&& match m {
                Ok(x) => h.action == x.action && h.stream_id@ == stream_id_of(
                    id,
                    x.manifest.transport_profile,
                    x.manifest.pick_rule,
                ),
                Err(e) => false,
            }
        };
    let p = m->Ok_0;
    let key = pre.registry.own(id);
    assert(p.manifest@ == mid.registry.mounts[key].manifest());
    assert(handle_of(mid, id, name@));
    if !mid.shares.dom().contains(name@) {
        let x = found->0;
        let k = mid.registry.own(x);
        assert(announced_as(mid.registry, id, name@));
        law_stream_id_tells_endpoint(
            x,
            mid.registry.mounts[k].transport_profile,
            mid.registry.mounts[k].strategies[0].pick,
            id,
            p.manifest.transport_profile,
            p.manifest.pick_rule,
        );
    }
    law_announcement_is_taken_back_by_its_handle(
        pre,
        mid,
        final(app2)@,
        id,
        visibility@,
        Delivery::Pull,
        announced_transports(pre.registry, id, None),
        announced_codecs(None),
        then,
        p,
        now,
        r,
    );
}

/// The catalog lists the endpoints by their kinds, screens first and services last, and those of one
/// kind by their numbers.
pub proof fn law_catalog_is_in_order<P: AuthPolicy, D: DataPlaneBackend>(
    app: &Kernel<P, D>,
    r: Vec<EndpointManifest>,
    shown: Vec<EndpointManifest>,
    i: int,
    j: int,
    first: u8,
    second: u8,
)
    requires
        app.wf(),
        call_ensures(Kernel::<P, D>::endpoint_catalog, (app,), r),
        call_ensures(Kernel::<P, D>::published_endpoints, (app,), shown),
        0 <= i < j < r@.len(),
        call_ensures(kind_rank, (r@[i].kind,), first),
        call_ensures(kind_rank, (r@[j].kind,), second),
    ensures
        first < second || r@[i].kind == r@[j].kind && r@[i].endpoint_id < r@[j].endpoint_id,
        shown@.len() <= r@.len(),
        forall|k: int| 0 <= k < shown@.len() ==> (#[trigger] shown@[k]).published,
{
    app.registry.lemma_consistent();
    let mounts = app@.registry.mounts;
    let own = Some(app@.registry.self_node);
    let keys = choose|keys: Seq<RefModel>|
        {
            &&& #[trigger] lists(mounts, own, false, keys)
            &&& r@.len() == keys.len()
            &&& forall|i: int| 0 <= i < r@.len() ==> (#[trigger] r@[i])@ == mounts[keys[i]].manifest()
        };
    let open = choose|keys: Seq<RefModel>|
        {
            &&& #[trigger] lists(mounts, own, true, keys)
            &&& shown@.len() == keys.len()
            &&& forall|i: int|
                0 <= i < shown@.len() ==> (#[trigger] shown@[i])@ == mounts[keys[i]].manifest()
        };
    assert(keys.contains(keys[i]) && keys.contains(keys[j]));
    assert(r@[i]@ == mounts[keys[i]].manifest() && r@[j]@ == mounts[keys[j]].manifest());
    law_kind_rank_injective(r@[i].kind, r@[j].kind);
    assert forall|k: int| 0 <= k < shown@.len() implies (#[trigger] shown@[k]).published by {
        assert(open.contains(open[k]));
        assert(shown@[k]@ == mounts[open[k]].manifest());
    }
    open.unique_seq_to_set();
    keys.unique_seq_to_set();
    assert(open.to_set().subset_of(keys.to_set())) by {
        assert forall|k: RefModel| open.to_set().contains(k) implies keys.to_set().contains(k) by {
            assert(open.contains(k));
            assert(keys.contains(k));
        }
    }
    vstd::set_lib::lemma_len_subset(open.to_set(), keys.to_set());
}

/// What another node says about its endpoints is what this node knows of them afterwards.
pub proof fn law_directory_is_taken_at_its_word<P: AuthPolicy, D: DataPlaneBackend>(
    app: &mut Kernel<P, D>,
    dir: &EndpointDir,
    addr: &str,
    i: int,
    ids: Vec<String>,
    nodes: Vec<NodeRegistration>,
) -> (n: int)
    requires
        old(app).wf(),
        call_ensures(Kernel::<P, D>::register_remote_directory, (app, dir, addr), ()),
        dir.node.node_id@.len() > 0,
        dir.node.node_id@ != old(app)@.registry.self_node,
        0 <= i < dir.endpoints@.len(),
        forall|j: int|
            i < j < dir.endpoints@.len() ==> (#[trigger] dir.endpoints@[j])@.id
                != dir.endpoints@[i]@.id,
        call_ensures(UnifiedRegistry::node_ids, (&final(app).registry,), ids),
        call_ensures(Kernel::<P, D>::registry_nodes, (&*final(app),), nodes),
    ensures
        ({
            let m = dir.endpoints@[i];
            let e = final(app)@.registry.mounts[RefModel { owner: dir.node.node_id@, id: m@.id }];
            &&& e.name == m.name@
            &&& e.available == m.available
            &&& e.last_error == m@.last_error
            &&& e.published == m.published
            &&& e.visibility == m.visibility@
            &&& e.delivery == m.delivery
            &&& e.transports == m.transports@
            &&& e.transport_profile == m.transport_profile
            &&& m.strategies@.len() > 0 ==> e.strategies == strategy_models(m.strategies@)
            &&& e.codecs == m.codecs@
            &&& e.state == m.state
            &&& e.subscribers == m.subscribers
            &&& e.updated_at == m.updated_at
        }),
        0 <= n < nodes@.len(),
        nodes@[n].node_id@ == dir.node.node_id@,
        nodes@[n].name@ == dir.node.node_name@,
        nodes@[n].addr@ == addr@,
        !nodes@[n].is_self,
        nodes@[n]@.endpoints.dom().contains(dir.endpoints@[i]@.id),
        ({
            let m = dir.endpoints@[i];
            let e = nodes@[n]@.endpoints[m@.id];
            &&& e.name == m.name@
            &&& e.kind == m.kind
            &&& e.transport_profile == m.transport_profile
            &&& m.strategies@.len() > 0 ==> e.strategies == strategy_models(m.strategies@) && (
            e.target is Determined <==> m.transport_profile is Lossless
                && m.strategies@[0].pick is StrictOrdered)
        }),
{
    let pre = old(app)@.registry;
    let post = final(app)@.registry;
    let node = dir.node.node_id@;
    lemma_remote_at(without_owner(pre.mounts, node), node, dir.endpoints@, i);
    final(app).registry.lemma_consistent();
    vstd::seq_lib::seq_to_set_is_finite(texts(ids@));
    lemma_node_is_listed(post.nodes.dom(), nodes@, node);
    let n = choose|n: int| 0 <= n < nodes@.len() && (#[trigger] nodes@[n])@.node_id == node;
    assert(manifest_ids(dir.endpoints@)[i] == dir.endpoints@[i]@.id);
    assert(post.nodes[node].endpoint_ids.contains(dir.endpoints@[i]@.id));
    if dir.endpoints@[i].strategies@.len() > 0 {
        assert(dir.endpoints@[i]@.strategies[0] == dir.endpoints@[i].strategies@[0]@);
    }
    n
}

proof fn lemma_node_is_listed(
    known: Set<Seq<char>>,
    nodes: Seq<NodeRegistration>,
    id: Seq<char>,
)
    requires
        known.finite(),
        nodes.len() == known.len(),
        forall|i: int| 0 <= i < nodes.len() ==> known.contains((#[trigger] nodes[i])@.node_id),
        forall|i: int, j: int|
            #![trigger nodes[i], nodes[j]]
            0 <= i < j < nodes.len() ==> nodes[i]@.node_id != nodes[j]@.node_id,
        known.contains(id),
    ensures
        exists|n: int| 0 <= n < nodes.len() && (#[trigger] nodes[n])@.node_id == id,
{
    let ids = nodes.map_values(|x: NodeRegistration| x@.node_id);
    assert forall|a: int, b: int| 0 <= a < ids.len() && 0 <= b < ids.len() && a != b implies ids[a]
        != ids[b] by {
        if a < b {
            assert(nodes[a]@.node_id != nodes[b]@.node_id);
        } else {
            assert(nodes[b]@.node_id != nodes[a]@.node_id);
        }
    }
    ids.unique_seq_to_set();
    assert(ids.to_set().subset_of(known)) by {
        assert forall|x: Seq<char>| ids.to_set().contains(x) implies known.contains(x) by {
            let a = choose|a: int| 0 <= a < ids.len() && ids[a] == x;
            assert(known.contains(nodes[a]@.node_id));
        }
    }
    vstd::set_lib::lemma_subset_equality(ids.to_set(), known);
    assert(ids.to_set().contains(id));
    let n = choose|n: int| 0 <= n < ids.len() && ids[n] == id;
    assert(nodes[n]@.node_id == id);
}

/// A node that learned who it is stands among the nodes under that id and name, as this node.
pub proof fn law_own_node_is_shown_under_its_name(
    app: &mut UnifiedRegistry,
    node_id: &str,
    name: &str,
    ids: Vec<String>,
    nodes: Vec<NodeRegistration>,
) -> (n: int)
    requires
        old(app).wf(),
        call_ensures(UnifiedRegistry::set_self_node, (app, node_id, name), ()),
        call_ensures(UnifiedRegistry::node_ids, (&*final(app),), ids),
        call_ensures(UnifiedRegistry::node_registrations, (&*final(app),), nodes),
    ensures
        0 <= n < nodes@.len(),
        nodes@[n].node_id@ == node_id@,
        nodes@[n].name@ == name@,
        nodes@[n].is_self,
{
    old(app).lemma_consistent();
    final(app).lemma_consistent();
    vstd::seq_lib::seq_to_set_is_finite(texts(ids@));
    lemma_node_is_listed(final(app)@.nodes.dom(), nodes@, node_id@);
    let n = choose|n: int| 0 <= n < nodes@.len() && (#[trigger] nodes@[n])@.node_id == node_id@;
    n
}

/// An endpoint whose share begins is active and shows as many subscribers as there are.
pub proof fn law_active_endpoint_shows_its_subscribers<P: AuthPolicy, D: DataPlaneBackend>(
    app: &mut Kernel<P, D>,
    id: EndpointId,
    stream_id: &str,
    delivery: Delivery,
    now: u64,
    check: ShareCheck,
    count: usize,
    after: Option<EndpointManifest>,
)
    requires
        call_ensures(
            Kernel::<P, D>::note_share_active,
            (app, id, stream_id, delivery, now),
            check,
        ),
        call_ensures(UnifiedRegistry::subscriber_count, (&old(app).registry, id), count),
        call_ensures(Kernel::<P, D>::endpoint_manifest, (&*final(app), id), after),
    ensures
        after matches Some(m) ==> m.state is Active && m.subscribers == count && m.updated_at == now,
{
}

/// The receiving end of a subscription bears the name of the kind of its endpoint, unless somebody
/// else builds it: then it is handed to whoever was registered.
pub proof fn law_receiving_end_bears_its_kind(
    factory: SubscribeEndpointFactory,
    spec: &SubscribeSpec,
    out_dir: Option<&str>,
    temp_dir: &str,
    label: &'static str,
    r: SubscribeEndpoint,
)
    requires
        call_ensures(
            crate::kernel::endpoint::subscribe_generate::build,
            (factory, spec, out_dir, temp_dir),
            r,
        ),
        call_ensures(crate::message::MediaKind::as_str, (spec.kind,), label),
    ensures
        factory is FileReceiver ==> (r matches SubscribeEndpoint::File { id, name, out_dir: d }
            && name@ == label@),
        factory is MediaReceiver ==> (r matches SubscribeEndpoint::Media { id, name, kind } && name@
            == label@),
        factory matches SubscribeEndpointFactory::Registered(n) ==> r
            == (SubscribeEndpoint::Registered { factory: n }),
{
}

/// A builder that is registered for a class of endpoints builds the receiving ends of that class from
/// then on.
pub proof fn law_registered_builder_is_used<P: AuthPolicy, D: DataPlaneBackend>(
    app: &mut Kernel<P, D>,
    number: u32,
    class: EndpointClass,
    spec: &SubscribeSpec,
    out_dir: Option<&str>,
    temp_dir: &str,
    of: EndpointClass,
    r: Result<SubscribeEndpoint, Error>,
)
    requires
        call_ensures(
            Kernel::<P, D>::register_subscribe_factory,
            (app, class, SubscribeEndpointFactory::Registered(number)),
            (),
        ),
        call_ensures(EndpointClass::from_kind, (spec.kind,), of),
        of == class,
        call_ensures(
            Kernel::<P, D>::subscribe_via_endpoint,
            (&*final(app), spec, out_dir, temp_dir),
            r,
        ),
    ensures
        r matches Ok(SubscribeEndpoint::Registered { factory }) && factory == number,
{
}

/// A file that cannot be opened is not shared; the endpoint that is made for it says so and why.
pub proof fn law_unreadable_file_is_not_shared<P: AuthPolicy, D: DataPlaneBackend>(
    app: &mut Kernel<P, D>,
    offer: &FileOffer,
    meta: FileMeta,
    reason: String,
    visibility: Visibility,
    delivery: Delivery,
    now: u64,
    r: Result<Published, Error>,
    id: EndpointId,
    earlier: Option<EndpointManifest>,
    later: Option<EndpointManifest>,
)
    requires
        call_ensures(
            Kernel::<P, D>::publish_file_endpoint,
            (app, offer, visibility, delivery, now),
            r,
        ),
        offer.meta == Ok::<FileMeta, String>(meta),
        meta.is_file,
        offer.probe == Err::<(), String>(reason),
        call_ensures(Kernel::<P, D>::endpoint_manifest, (&*old(app), id), earlier),
        call_ensures(Kernel::<P, D>::endpoint_manifest, (&*final(app), id), later),
    ensures
        r is Err,
        earlier is None && later is Some ==> id.kind is File && !later->0.available
            && !later->0.published && (later->0.last_error matches Some(t) && t@ == reason@),
        earlier is Some ==> (later matches Some(m) && m@ == earlier->0@),
{
    let pre = old(app)@.registry;
    let post = final(app)@.registry;
    let r0 = match r {
        Ok(p) => Ok(p.manifest),
        Err(e) => Err(e),
    };
    assert(file_outcome(pre, post, offer, visibility@, delivery, now, r0));
    let n = choose|n: u32|
        #[trigger] first_free(pre.mounts, pre.self_node, pre.next_file, n) && file_shared(
            pre,
            post,
            offer,
            n,
            meta.size,
            visibility@,
            delivery,
            now,
            r0,
        );
    if earlier is None && later is Some {
        let m = later->0;
        assert(m@.last_error == Some(reason@));
    }
}

} // verus!
