//! Shares: which endpoint is being shared over which stream, and when that ends.

use vstd::prelude::*;

use crate::error::Error;
use crate::kernel::auth::AuthPolicy;
use crate::kernel::data_plane::DataPlaneBackend;
use crate::kernel::endpoint::manifest::EndpointManifest;
use crate::kernel::endpoint::registry::RegistryModel;
use crate::kernel::session_api::{torn_down, ControlPlane};
use crate::kernel::{running_view, Kernel, KernelModel, RunningStream, ShareRecord};
use crate::message::{texts, Delivery, EndpointId, EndpointState};
use crate::order::{
    lemma_all_listed, lemma_same_images, lemma_same_members, lemma_text_le_total, lemma_text_le_transitive, sort,
    text_le, text_leq, Ranked,
};

verus! {

/// What is left to be done after a stream ended.
pub struct Reaped {
    /// The endpoint that was shared over it, if it was a share.
    pub endpoint_id: Option<EndpointId>,
    /// The push that is to be stopped, if this node pushed it.
    pub engine: Option<RunningStream>,
}

/// What the end of a stream does to the control plane: its session, if there is one, is removed,
/// whatever its access code.
pub open spec fn session_ended<P: AuthPolicy, D: DataPlaneBackend>(
    pre: &ControlPlane<P, D>,
    post: &ControlPlane<P, D>,
    id: Seq<char>,
) -> bool {
    if pre.sessions@.dom().contains(id) {
        &&& post.graph == pre.graph
        &&& post.next_id == pre.next_id
        &&& post.data_plane is Some <==> pre.data_plane is Some
        &&& exists|r: Result<(), Error>| #[trigger] torn_down(pre, post, id, r)
    } else {
        *post == *pre
    }
}

/// The registry after the share over a stream ended: its endpoint is idle and has no subscribers.
pub open spec fn share_ended(
    registry: RegistryModel,
    shares: Map<Seq<char>, ShareRecord>,
    id: Seq<char>,
    now: u64,
) -> RegistryModel {
    if shares.dom().contains(id) {
        registry.without_subscribers(shares[id].endpoint_id).with_state(
            shares[id].endpoint_id,
            EndpointState::Idle,
            0,
            now,
        )
    } else {
        registry
    }
}

/// What the end of a stream does: the share over it, the push and the session are gone.
pub open spec fn reaped<P: AuthPolicy, D: DataPlaneBackend>(
    pre: KernelModel<P, D>,
    post: KernelModel<P, D>,
    id: Seq<char>,
    now: u64,
) -> bool {
    &&& post == (KernelModel {
        control: post.control,
        registry: share_ended(pre.registry, pre.shares, id, now),
        shares: pre.shares.remove(id),
        engines: pre.engines.remove(id),
        ..pre
    })
    &&& session_ended(&pre.control, &post.control, id)
}

/// What is left to be done after a stream ended.
pub open spec fn reaped_rest<P: AuthPolicy, D: DataPlaneBackend>(
    pre: KernelModel<P, D>,
    id: Seq<char>,
    r: Reaped,
) -> bool {
    &&& r.endpoint_id == (if pre.shares.dom().contains(id) {
        Some(pre.shares[id].endpoint_id)
    } else {
        None
    })
    &&& running_view(r.engine) == (if pre.engines.dom().contains(id) {
        Some(pre.engines[id])
    } else {
        None
    })
}

/// Whether an endpoint is being shared over some stream.
pub open spec fn shared(shares: Map<Seq<char>, ShareRecord>, id: EndpointId) -> bool {
    exists|s: Seq<char>| #[trigger] shares.dom().contains(s) && shares[s].endpoint_id == id
}

/// What stopping the share of an endpoint does: the stream over which it is shared ends; nothing
/// happens when it is not shared.
pub open spec fn share_stopped<P: AuthPolicy, D: DataPlaneBackend>(
    pre: KernelModel<P, D>,
    post: KernelModel<P, D>,
    id: EndpointId,
    now: u64,
    engine: Option<RunningStream>,
) -> bool {
    if shared(pre.shares, id) {
        exists|s: Seq<char>|
            {
                &&& #[trigger] pre.shares.dom().contains(s)
                &&& pre.shares[s].endpoint_id == id
                &&& reaped(pre, post, s, now)
                &&& running_view(engine) == (if pre.engines.dom().contains(s) {
                    Some(pre.engines[s])
                } else {
                    None
                })
            }
    } else {
        post == pre && engine is None
    }
}

/// A check that is to be made after a while.
pub struct ShareCheck {
    pub stream_id: String,
    pub delay_ms: u64,
}

/// An endpoint that is being shared, with the nodes that subscribe.
#[derive(Debug)]
pub struct ActiveShare {
    pub stream_id: String,
    pub endpoint_id: EndpointId,
    pub delivery: Delivery,
    pub subscriber_nodes: Vec<String>,
}

impl Ranked for ActiveShare {
    open spec fn le(&self, other: &Self) -> bool {
        text_le(self.stream_id@, other.stream_id@)
    }

    proof fn total(a: &Self, b: &Self) {
        lemma_text_le_total(a.stream_id@, b.stream_id@);
    }

    proof fn transitive(a: &Self, b: &Self, c: &Self) {
        lemma_text_le_transitive(a.stream_id@, b.stream_id@, c.stream_id@);
    }

    fn leq(&self, other: &Self) -> (r: bool) {
        text_leq(self.stream_id.as_str(), other.stream_id.as_str())
    }
}

/// Whether an active share says what the tables hold: the endpoint, the direction, and the
/// subscribers of the endpoint.
pub open spec fn describes_share(
    registry: RegistryModel,
    shares: Map<Seq<char>, ShareRecord>,
    a: ActiveShare,
) -> bool {
    let key = registry.own(a.endpoint_id);
    &&& shares.dom().contains(a.stream_id@)
    &&& shares[a.stream_id@] == (ShareRecord { endpoint_id: a.endpoint_id, delivery: a.delivery })
    &&& texts(a.subscriber_nodes@).no_duplicates()
    &&& texts(a.subscriber_nodes@).to_set() == (if registry.mounts.dom().contains(key) {
        registry.mounts[key].subscriber_nodes
    } else {
        Set::empty()
    })
}

impl<P: AuthPolicy, D: DataPlaneBackend> Kernel<P, D> {
    /// Notes that an endpoint is being shared over a stream. The share is to be checked once the
    /// time for the first watcher is over.
    pub fn note_share_active(
        &mut self,
        endpoint_id: EndpointId,
        stream_id: &str,
        delivery: Delivery,
        now: u64,
    ) -> (r: ShareCheck)
        requires
            old(self).wf(),
        ensures
            final(self).wf(),
            final(self)@ == (KernelModel {
                shares: old(self)@.shares.insert(
                    stream_id@,
                    ShareRecord { endpoint_id, delivery },
                ),
                registry: old(self)@.registry.activated(endpoint_id, now),
                ..old(self)@
            }),
            r.stream_id@ == stream_id@,
            r.delay_ms == old(self)@.idle_delay_ms,
    {
        let _ = self.active_shares.insert(
            stream_id.to_owned(),
            ShareRecord { endpoint_id, delivery },
        );
        self.registry.activate(endpoint_id, now);
        assert(self@ =~= KernelModel {
            shares: self@.shares,
            registry: self@.registry,
            ..old(self)@
        });
        ShareCheck { stream_id: stream_id.to_owned(), delay_ms: self.share_idle_delay_ms }
    }

    /// A subscription came about: the share is noted, and the endpoint is to start sharing. The
    /// second part of the result says whether this node has the endpoint.
    pub fn on_subscribed(
        &mut self,
        endpoint_id: EndpointId,
        stream_id: &str,
        delivery: Delivery,
        now: u64,
    ) -> (r: (ShareCheck, bool))
        requires
            old(self).wf(),
        ensures
            final(self).wf(),
            final(self)@ == (KernelModel {
                shares: old(self)@.shares.insert(
                    stream_id@,
                    ShareRecord { endpoint_id, delivery },
                ),
                registry: old(self)@.registry.activated(endpoint_id, now),
                ..old(self)@
            }),
            r.0.stream_id@ == stream_id@,
            r.0.delay_ms == old(self)@.idle_delay_ms,
            r.1 == old(self)@.registry.mounts.dom().contains(old(self)@.registry.own(endpoint_id)),
    {
        let check = self.note_share_active(endpoint_id, stream_id, delivery, now);
        let known: bool = self.registry.on_subscribed(endpoint_id);
        (check, known)
    }

    /// Cleans up after a stream ended.
    pub fn reap_stream(&mut self, stream_id: &str, now: u64) -> (r: Reaped)
        requires
            old(self).wf(),
        ensures
            final(self).wf(),
            reaped(old(self)@, final(self)@, stream_id@, now),
            reaped_rest(old(self)@, stream_id@, r),
    {
        let key: String = stream_id.to_owned();
        let ghost m0 = self@;
        let endpoint_id: Option<EndpointId> = match self.active_shares.remove(&key) {
            Some(s) => {
                self.registry.clear_subscribers(s.endpoint_id);
                let _ = self.registry.set_state(s.endpoint_id, EndpointState::Idle, 0, now);
                Some(s.endpoint_id)
            },
            None => None,
        };
        let engine: Option<RunningStream> = self.engines.remove(&key);
        assert(self@.engines =~= m0.engines.remove(stream_id@));
        assert(self@ =~= KernelModel {
            registry: share_ended(m0.registry, m0.shares, stream_id@, now),
            shares: m0.shares.remove(stream_id@),
            engines: m0.engines.remove(stream_id@),
            ..m0
        });
        if self.control.has_session(stream_id) {
            let ended = self.control.force_teardown(stream_id);
            assert(torn_down(&m0.control, &self.control, stream_id@, ended));
        }
        assert(self@ =~= KernelModel {
            control: self@.control,
            registry: share_ended(m0.registry, m0.shares, stream_id@, now),
            shares: m0.shares.remove(stream_id@),
            engines: m0.engines.remove(stream_id@),
            ..m0
        });
        Reaped { endpoint_id, engine }
    }

    /// The stream over which an endpoint is being shared, and its direction.
    pub fn active_share_by_endpoint(&self, endpoint_id: EndpointId) -> (r: Option<
        (String, Delivery),
    >)
        requires
            self.wf(),
        ensures
            match r {
                Some(p) => self@.shares.dom().contains(p.0@) && self@.shares[p.0@] == (
                ShareRecord { endpoint_id, delivery: p.1 }),
                None => !shared(self@.shares, endpoint_id),
            },
    {
        let n: usize = self.active_shares.len();
        let ghost keys = self.active_shares.keys();
        let mut i: usize = 0;
        while i < n
            invariant
                self.wf(),
                n == keys.len(),
                keys == self.active_shares.keys(),
                i <= n,
                forall|j: int|
                    0 <= j < i ==> self@.shares[#[trigger] keys[j]].endpoint_id != endpoint_id,
            decreases n - i,
        {
            let s: &ShareRecord = self.active_shares.value_at(i);
            if s.endpoint_id == endpoint_id {
                let k: &String = self.active_shares.key_at(i);
                return Some((k.clone(), s.delivery));
            }
            i += 1;
        }
        proof {
            self.active_shares.lemma_keys();
            assert forall|s: Seq<char>| #[trigger]
                self@.shares.dom().contains(s) implies self@.shares[s].endpoint_id != endpoint_id by {
                assert(keys.contains(s));
                let j = choose|j: int| 0 <= j < keys.len() && keys[j] == s;
                assert(self@.shares[keys[j]].endpoint_id != endpoint_id);
            }
        }
        None
    }

    /// The share over a stream.
    pub fn active_share_by_stream(&self, stream_id: &str) -> (r: Option<ShareRecord>)
        requires
            self.wf(),
        ensures
            r == (if self@.shares.dom().contains(stream_id@) {
                Some(self@.shares[stream_id@])
            } else {
                None
            }),
    {
        match self.active_shares.get(&stream_id.to_owned()) {
            Some(s) => Some(*s),
            None => None,
        }
    }

    /// Stops the share of an endpoint, if it is being shared; the endpoint stays announced. The
    /// result is the push that is to be stopped.
    pub fn stop(&mut self, endpoint_id: EndpointId, now: u64) -> (r: Option<RunningStream>)
        requires
            old(self).wf(),
        ensures
            final(self).wf(),
            share_stopped(old(self)@, final(self)@, endpoint_id, now, r),
    {
        match self.active_share_by_endpoint(endpoint_id) {
            None => None,
            Some(p) => {
                let done = self.reap_stream(p.0.as_str(), now);
                assert(old(self)@.shares.dom().contains(p.0@));
                done.engine
            },
        }
    }

    /// Stops the share over a stream when the data plane says that nobody watches it. Nothing
    /// happens when the stream is gone, is watched, or no data plane is connected.
    pub fn reap_if_unwatched(&mut self, stream_id: &str, now: u64) -> (r: Option<Reaped>)
        requires
            old(self).wf(),
        ensures
            final(self).wf(),
            unwatched(old(self)@, stream_id@) ==> {
                &&& r is Some
                &&& reaped(old(self)@, final(self)@, stream_id@, now)
                &&& reaped_rest(old(self)@, stream_id@, r->0)
            },
            !unwatched(old(self)@, stream_id@) ==> r is None && final(self)@ == old(self)@,
    {
        let watchers: Option<u32> = match &self.control.data_plane {
            Some(d) => d.stream_watchers(stream_id),
            None => None,
        };
        match watchers {
            Some(n) => {
                if n == 0 {
                    return Some(self.reap_stream(stream_id, now));
                }
                None
            },
            None => None,
        }
    }

    /// The shares that are active, in the order of their streams, with the nodes that subscribe.
    pub fn active(&self) -> (r: Vec<ActiveShare>)
        requires
            self.wf(),
        ensures
            r@.len() == self@.shares.dom().len(),
            forall|i: int|
                0 <= i < r@.len() ==> describes_share(
                    self@.registry,
                    self@.shares,
                    #[trigger] r@[i],
                ),
            forall|i: int, j: int|
                #![trigger r@[i], r@[j]]
                0 <= i < j < r@.len() ==> text_le(r@[i].stream_id@, r@[j].stream_id@)
                    && r@[i].stream_id@ != r@[j].stream_id@,
    {
        let mut v: Vec<ActiveShare> = Vec::new();
        let n: usize = self.active_shares.len();
        let ghost keys = self.active_shares.keys();
        let mut i: usize = 0;
        proof {
            self.active_shares.lemma_keys();
        }
        while i < n
            invariant
                self.wf(),
                n == keys.len(),
                keys == self.active_shares.keys(),
                keys.no_duplicates(),
                i <= n,
                v@.len() == i,
                forall|j: int|
                    0 <= j < i ==> (#[trigger] v@[j]).stream_id@ == keys[j] && describes_share(
                        self@.registry,
                        self@.shares,
                        v@[j],
                    ),
            decreases n - i,
        {
            let k: &String = self.active_shares.key_at(i);
            let s: &ShareRecord = self.active_shares.value_at(i);
            let nodes: Vec<String> = match self.registry.subscriber_nodes(s.endpoint_id) {
                Some(v) => v,
                None => Vec::new(),
            };
            proof {
                if !self@.registry.mounts.dom().contains(self@.registry.own(s.endpoint_id)) {
                    assert(texts(nodes@) =~= Seq::<Seq<char>>::empty());
                    assert(texts(nodes@).to_set() =~= Set::<Seq<char>>::empty());
                }
            }
            v.push(
                ActiveShare {
                    stream_id: k.clone(),
                    endpoint_id: s.endpoint_id,
                    delivery: s.delivery,
                    subscriber_nodes: nodes,
                },
            );
            i += 1;
        }
        let ghost unsorted = v@;
        let r = sort(v);
        proof {
            let f = |x: ActiveShare| x.stream_id@;
            assert(unsorted.map_values(f) =~= keys);
            lemma_same_images(unsorted, r@, f);
            lemma_same_members(unsorted, r@);
            assert forall|i: int| 0 <= i < r@.len() implies describes_share(
                self@.registry,
                self@.shares,
                #[trigger] r@[i],
            ) by {
                assert(r@.contains(r@[i]));
                let j = choose|j: int| 0 <= j < unsorted.len() && unsorted[j] == r@[i];
                assert(unsorted[j].stream_id@ == keys[j]);
            }
            assert forall|i: int, j: int|
                #![trigger r@[i], r@[j]]
                0 <= i < j < r@.len() implies text_le(r@[i].stream_id@, r@[j].stream_id@)
                && r@[i].stream_id@ != r@[j].stream_id@ by {
                assert(r@[i].le(&r@[j]));
                assert(r@.map_values(f)[i] != r@.map_values(f)[j]);
            }
        }
        r
    }
}

/// Whether the data plane says that nobody watches a stream.
pub open spec fn unwatched<P: AuthPolicy, D: DataPlaneBackend>(
    k: KernelModel<P, D>,
    id: Seq<char>,
) -> bool {
    k.control.data_plane matches Some(d) && d.watched_by(id) == Some(0u32)
}

/// Once a stream ended, its endpoint is no longer shared over it, its session is gone, and no push
/// of it is left.
pub proof fn law_ended_stream_leaves_nothing<P: AuthPolicy, D: DataPlaneBackend>(
    pre: KernelModel<P, D>,
    post: KernelModel<P, D>,
    id: Seq<char>,
    now: u64,
)
    requires
        reaped(pre, post, id, now),
    ensures
        !post.shares.dom().contains(id),
        !post.engines.dom().contains(id),
        !post.control.sessions@.dom().contains(id),
{
}

/// The end of one stream leaves every other stream as it was: its share, its push and its session.
pub proof fn law_ended_stream_leaves_others<P: AuthPolicy, D: DataPlaneBackend>(
    pre: KernelModel<P, D>,
    post: KernelModel<P, D>,
    id: Seq<char>,
    other: Seq<char>,
    now: u64,
)
    requires
        reaped(pre, post, id, now),
        other != id,
    ensures
        post.shares.dom().contains(other) <==> pre.shares.dom().contains(other),
        pre.shares.dom().contains(other) ==> post.shares[other] == pre.shares[other],
        post.engines.dom().contains(other) <==> pre.engines.dom().contains(other),
        pre.engines.dom().contains(other) ==> post.engines[other] == pre.engines[other],
        post.control.sessions@.dom().contains(other) <==> pre.control.sessions@.dom().contains(
            other,
        ),
        pre.control.sessions@.dom().contains(other) ==> post.control.sessions@[other]
            == pre.control.sessions@[other],
{
}

/// Cleaning up a second time does nothing more.
pub proof fn law_ended_stream_ends_once<P: AuthPolicy, D: DataPlaneBackend>(
    pre: KernelModel<P, D>,
    mid: KernelModel<P, D>,
    post: KernelModel<P, D>,
    id: Seq<char>,
    then: u64,
    now: u64,
)
    requires
        reaped(pre, mid, id, then),
        reaped(mid, post, id, now),
    ensures
        post == mid,
{
    assert(mid.shares.remove(id) =~= mid.shares);
    assert(mid.engines.remove(id) =~= mid.engines);
    assert(post =~= mid);
}

/// A share that is noted is found by its stream and by its endpoint, in the direction in which it was
/// noted, and its endpoint is active; it is looked at again after the idle delay.
pub proof fn law_noted_share_is_found<P: AuthPolicy, D: DataPlaneBackend>(
    app: &mut Kernel<P, D>,
    endpoint_id: EndpointId,
    stream_id: &str,
    delivery: Delivery,
    now: u64,
    check: ShareCheck,
    by_stream: Option<ShareRecord>,
    by_endpoint: Option<(String, Delivery)>,
    known: bool,
)
    requires
        call_ensures(
            Kernel::<P, D>::on_subscribed,
            (app, endpoint_id, stream_id, delivery, now),
            (check, known),
        ),
        call_ensures(
            Kernel::<P, D>::active_share_by_stream,
            (&*final(app), stream_id),
            by_stream,
        ),
        call_ensures(
            Kernel::<P, D>::active_share_by_endpoint,
            (&*final(app), endpoint_id),
            by_endpoint,
        ),
    ensures
        by_stream == Some(ShareRecord { endpoint_id, delivery }),
        by_endpoint is Some,
        !shared(old(app)@.shares, endpoint_id) ==> (by_endpoint->0).0@ == stream_id@
            && (by_endpoint->0).1 == delivery,
        check.stream_id@ == stream_id@,
        check.delay_ms == old(app).share_idle_delay_ms,
        known ==> ({
            let e = final(app)@.registry.mounts[final(app)@.registry.own(endpoint_id)];
            e.state is Active && e.updated_at == now
        }),
{
    assert(final(app)@.shares.dom().contains(stream_id@));
    assert(shared(final(app)@.shares, endpoint_id));
    if !shared(old(app)@.shares, endpoint_id) {
        let s = (by_endpoint->0).0@;
        if s != stream_id@ {
            assert(old(app)@.shares.dom().contains(s));
            assert(old(app)@.shares[s].endpoint_id == endpoint_id);
        }
    }
}

/// A share is stopped once nobody watches it, and only then: when the data plane counts no watcher of
/// its stream, nothing is left of it; else everything stays as it is.
pub proof fn law_unwatched_share_is_stopped<P: AuthPolicy, D: DataPlaneBackend>(
    app: &mut Kernel<P, D>,
    stream_id: &str,
    now: u64,
    plane: &D,
    watchers: Option<u32>,
    r: Option<Reaped>,
)
    requires
        call_ensures(Kernel::<P, D>::reap_if_unwatched, (app, stream_id, now), r),
        old(app).control.data_plane == Some(*plane),
        call_ensures(D::stream_watchers, (plane, stream_id), watchers),
    ensures
        watchers == Some(0u32) ==> r is Some && !final(app)@.shares.dom().contains(stream_id@)
            && !final(app)@.engines.dom().contains(stream_id@)
            && !final(app).control.sessions@.dom().contains(stream_id@),
        watchers != Some(0u32) ==> r is None && final(app)@ == old(app)@,
{
}

/// Without a data plane no share is stopped for want of watchers.
pub proof fn law_uncounted_share_stays<P: AuthPolicy, D: DataPlaneBackend>(
    app: &mut Kernel<P, D>,
    stream_id: &str,
    now: u64,
    r: Option<Reaped>,
)
    requires
        call_ensures(Kernel::<P, D>::reap_if_unwatched, (app, stream_id, now), r),
        old(app).control.data_plane is None,
    ensures
        r is None,
        final(app)@ == old(app)@,
{
}

/// Stopping the share of an endpoint stops the push over its stream and leaves the endpoint announced
/// as it was; an endpoint that is not shared is left alone.
pub proof fn law_stopped_share_stays_announced<P: AuthPolicy, D: DataPlaneBackend>(
    app: &mut Kernel<P, D>,
    id: EndpointId,
    now: u64,
    r: Option<RunningStream>,
    share: Option<(String, Delivery)>,
    before: EndpointManifest,
    after: Option<EndpointManifest>,
)
    requires
        old(app).wf(),
        call_ensures(Kernel::<P, D>::stop_endpoint_share, (app, id, now), r),
        call_ensures(Kernel::<P, D>::active_share_by_endpoint, (&*old(app), id), share),
        call_ensures(Kernel::<P, D>::endpoint_manifest, (&*old(app), id), Some(before)),
        call_ensures(Kernel::<P, D>::endpoint_manifest, (&*final(app), id), after),
    ensures
        after matches Some(m) && m.published == before.published && m.name@ == before.name@
            && m.visibility@ == before.visibility@ && m.transports@ == before.transports@,
        share is None ==> r is None && final(app)@ == old(app)@,
        share is Some ==> (after matches Some(m) && m.state is Idle && m.subscribers == 0),
        r matches Some(s) ==> old(app)@.engines.dom().contains(s.stream_id@) && !final(app)@.engines.dom().contains(s.stream_id@),
{
    let pre = old(app)@;
    if share is Some {
        assert(pre.shares.dom().contains((share->0).0@));
        assert(shared(pre.shares, id));
        let s = choose|s: Seq<char>|
            {
                &&& #[trigger] pre.shares.dom().contains(s)
                &&& pre.shares[s].endpoint_id == id
                &&& reaped(pre, final(app)@, s, now)
                &&& running_view(r) == (if pre.engines.dom().contains(s) {
                    Some(pre.engines[s])
                } else {
                    None
                })
            };
        assert(final(app)@.registry == share_ended(pre.registry, pre.shares, s, now));
        if r is Some {
            assert(r->0@ == pre.engines[s]);
            assert(old(app).engines@.dom().contains(s));
        }
    }
}

/// Every active share is shown, with its endpoint and direction and with the nodes that subscribe to
/// its endpoint.
pub proof fn law_active_shares_are_shown<P: AuthPolicy, D: DataPlaneBackend>(
    app: &Kernel<P, D>,
    r: Vec<ActiveShare>,
    stream_id: Seq<char>,
) -> (i: int)
    requires
        app.wf(),
        call_ensures(Kernel::<P, D>::active, (app,), r),
        app.active_shares@.dom().contains(stream_id),
    ensures
        0 <= i < r@.len(),
        r@[i].stream_id@ == stream_id,
        r@[i].endpoint_id == app.active_shares@[stream_id].endpoint_id,
        r@[i].delivery == app.active_shares@[stream_id].delivery,
        ({
            let key = app@.registry.own(r@[i].endpoint_id);
            app@.registry.mounts.dom().contains(key) ==> forall|n: Seq<char>| #[trigger]
                texts(r@[i].subscriber_nodes@).contains(n)
                    <==> app@.registry.mounts[key].subscriber_nodes.contains(n)
        }),
{
    app.active_shares.lemma_keys();
    let ids = r@.map_values(|x: ActiveShare| x.stream_id@);
    assert(ids.no_duplicates()) by {
        assert forall|a: int, b: int|
            0 <= a < ids.len() && 0 <= b < ids.len() && a != b implies ids[a] != ids[b] by {
            if a < b {
                assert(r@[a].stream_id@ != r@[b].stream_id@);
            } else {
                assert(r@[b].stream_id@ != r@[a].stream_id@);
            }
        }
    }
    assert forall|j: int| 0 <= j < ids.len() implies app@.shares.dom().contains(
        #[trigger] ids[j],
    ) by {
        assert(describes_share(app@.registry, app@.shares, r@[j]));
    }
    let i = lemma_all_listed(ids, app@.shares.dom(), stream_id);
    assert(r@[i].stream_id@ == stream_id);
    let a = r@[i];
    assert(describes_share(app@.registry, app@.shares, a));
    let key = app@.registry.own(a.endpoint_id);
    if app@.registry.mounts.dom().contains(key) {
        assert forall|n: Seq<char>| #[trigger] texts(a.subscriber_nodes@).contains(n)
            <==> app@.registry.mounts[key].subscriber_nodes.contains(n) by {
            assert(texts(a.subscriber_nodes@).to_set().contains(n) <==> texts(
                a.subscriber_nodes@,
            ).contains(n));
        }
    }
    i
}

/// After a stream ended nothing is shared or pushed over it; the endpoint that was shared over it is
/// named, and so is the push that has to be stopped.
pub proof fn law_nothing_is_shared_over_an_ended_stream<P: AuthPolicy, D: DataPlaneBackend>(
    app: &mut Kernel<P, D>,
    endpoint_id: EndpointId,
    stream_id: &str,
    delivery: Delivery,
    then: u64,
    check: ShareCheck,
    ended: &mut Kernel<P, D>,
    now: u64,
    r: Reaped,
    left: Option<ShareRecord>,
    manifest: Option<EndpointManifest>,
)
    requires
        call_ensures(
            Kernel::<P, D>::note_share_active,
            (app, endpoint_id, stream_id, delivery, then),
            check,
        ),
        *old(ended) == *final(app),
        call_ensures(Kernel::<P, D>::reap_stream, (ended, stream_id, now), r),
        call_ensures(Kernel::<P, D>::active_share_by_stream, (&*final(ended), stream_id), left),
        call_ensures(Kernel::<P, D>::endpoint_manifest, (&*final(ended), endpoint_id), manifest),
    ensures
        check.stream_id@ == stream_id@,
        check.delay_ms == old(app).share_idle_delay_ms,
        left is None,
        r.endpoint_id == Some(endpoint_id),
        r.engine is Some <==> old(app).engines@.dom().contains(stream_id@),
        !final(ended).engines@.dom().contains(stream_id@),
        !final(ended).control.sessions@.dom().contains(stream_id@),
        manifest matches Some(m) ==> m.state is Idle && m.subscribers == 0 && m.updated_at == now,
{
    assert(old(app).engines@.dom() =~= old(app)@.engines.dom());
    assert(final(app).engines@.dom() =~= final(app)@.engines.dom());
    assert(final(ended).engines@.dom() =~= final(ended)@.engines.dom());
}

} // verus!
