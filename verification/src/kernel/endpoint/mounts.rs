//! The endpoints of all nodes, each under the node that owns it.

use vstd::prelude::*;

use crate::channel::message::opt_view;
use crate::error::Error;
use crate::kernel::endpoint::file_source::{file_models, FileModel, FileSource};
use crate::kernel::endpoint::manifest::{
    clone_opt, listed_le, listed_leq, str_view, EndpointManifest, EndpointSummary, ManifestModel,
    SummaryModel,
};
use crate::message::{
    clone_codecs, clone_strategies, clone_transports, strategy_models, texts, CodecId, Delivery,
    EndpointId, EndpointRef, EndpointState, EndpointStrategy, MediaKind, PickRule, ref_models, RefModel,
    ReliabilityProfile, StrategyModel, TargetKind, TransportId, TransportPreference, Visibility,
    VisibilityModel,
};
use crate::order::{lemma_push_contains, lemma_same_images, sort, Ranked};
use crate::table::Table;
use crate::text::{join2, join3, same};

verus! {

/// An endpoint of this node as its implementation declares it, with the outcome of probing it.
pub struct SeedEndpoint {
    pub id: EndpointId,
    pub name: String,
    pub target: TargetKind,
    pub transport_profile: ReliabilityProfile,
    pub strategy: EndpointStrategy,
    /// Whether the endpoint can be used, or why not.
    pub probe: Result<(), String>,
}

/// An endpoint and how it is announced.
pub struct EndpointEntry {
    pub id: EndpointId,
    pub name: String,
    pub target: TargetKind,
    pub transport_profile: ReliabilityProfile,
    pub available: bool,
    pub last_error: Option<String>,
    /// The strategies; the first one is the default.
    pub strategies: Vec<EndpointStrategy>,
    pub published: bool,
    pub visibility: Visibility,
    pub delivery: Delivery,
    pub transports: Vec<TransportPreference>,
    pub codecs: Vec<CodecId>,
    pub state: EndpointState,
    pub subscribers: u32,
    /// The nodes that subscribe.
    pub subscriber_nodes: Table<String, ()>,
    pub updated_at: u64,
}

/// What an endpoint entry is, as a mathematical value.
#[verifier::ext_equal]
pub struct EntryModel {
    pub id: EndpointId,
    pub name: Seq<char>,
    pub target: TargetKind,
    pub transport_profile: ReliabilityProfile,
    pub available: bool,
    pub last_error: Option<Seq<char>>,
    pub strategies: Seq<StrategyModel>,
    pub published: bool,
    pub visibility: VisibilityModel,
    pub delivery: Delivery,
    pub transports: Seq<TransportPreference>,
    pub codecs: Seq<CodecId>,
    pub state: EndpointState,
    pub subscribers: u32,
    pub subscriber_nodes: Set<Seq<char>>,
    pub updated_at: u64,
}

impl View for EndpointEntry {
    type V = EntryModel;

    open spec fn view(&self) -> EntryModel {
        EntryModel {
            id: self.id,
            name: self.name@,
            target: self.target,
            transport_profile: self.transport_profile,
            available: self.available,
            last_error: opt_view(self.last_error),
            strategies: strategy_models(self.strategies@),
            published: self.published,
            visibility: self.visibility@,
            delivery: self.delivery,
            transports: self.transports@,
            codecs: self.codecs@,
            state: self.state,
            subscribers: self.subscribers,
            subscriber_nodes: self.subscriber_nodes@.dom(),
            updated_at: self.updated_at,
        }
    }
}

impl EntryModel {
    /// What others are told about the endpoint.
    pub open spec fn manifest(self) -> ManifestModel {
        ManifestModel {
            id: self.id,
            name: self.name,
            available: self.available,
            last_error: self.last_error,
            published: self.published,
            visibility: self.visibility,
            delivery: self.delivery,
            transports: self.transports,
            transport_profile: self.transport_profile,
            pick_rule: self.strategies[0].pick,
            strategies: self.strategies,
            codecs: self.codecs,
            state: self.state,
            subscribers: self.subscribers,
            updated_at: self.updated_at,
        }
    }

    /// What an announcement says about the endpoint.
    pub open spec fn summary(self) -> SummaryModel {
        SummaryModel {
            id: self.id,
            name: self.name,
            available: self.available,
            published: self.published,
        }
    }

    /// The entry after it was announced.
    pub open spec fn announced(
        self,
        visibility: VisibilityModel,
        delivery: Delivery,
        transports: Seq<TransportPreference>,
        codecs: Seq<CodecId>,
        now: u64,
    ) -> EntryModel {
        EntryModel {
            published: true,
            visibility,
            delivery,
            transports,
            codecs,
            updated_at: now,
            ..self
        }
    }

    /// The entry after its announcement was taken back.
    pub open spec fn withdrawn(self, now: u64) -> EntryModel {
        EntryModel {
            published: false,
            visibility: VisibilityModel::Public,
            delivery: Delivery::Pull,
            transports: Seq::empty(),
            codecs: Seq::empty(),
            state: EndpointState::Idle,
            subscribers: 0,
            subscriber_nodes: Set::empty(),
            updated_at: now,
            ..self
        }
    }

    /// Whether the count of subscribers is the number of nodes that subscribe.
    pub open spec fn counted(self) -> bool {
        self.subscriber_nodes.finite() && self.subscribers == self.subscriber_nodes.len()
    }

    /// The entry after a node subscribed.
    pub open spec fn with_subscriber(self, node: Seq<char>, now: u64) -> EntryModel {
        EntryModel {
            subscriber_nodes: self.subscriber_nodes.insert(node),
            subscribers: self.subscriber_nodes.insert(node).len() as u32,
            updated_at: now,
            ..self
        }
    }

    /// The entry after a node no longer subscribes.
    pub open spec fn without_subscriber(self, node: Seq<char>, now: u64) -> EntryModel {
        EntryModel {
            subscriber_nodes: self.subscriber_nodes.remove(node),
            subscribers: self.subscriber_nodes.remove(node).len() as u32,
            updated_at: now,
            ..self
        }
    }
}

impl EndpointEntry {
    /// What holds of every entry: it has a strategy, and its subscribers can be counted.
    pub open spec fn wf(&self) -> bool {
        &&& self.strategies@.len() > 0
        &&& self.subscriber_nodes.wf()
        &&& self.subscriber_nodes@.dom().finite()
        &&& self.subscriber_nodes@.dom().len() <= u32::MAX
    }

    /// What others are told about the endpoint.
    pub fn manifest_of(&self) -> (r: EndpointManifest)
        requires
            self.wf(),
        ensures
            r@ == self@.manifest(),
    {
        EndpointManifest {
            endpoint_id: self.id.id,
            kind: self.id.kind,
            name: self.name.clone(),
            available: self.available,
            last_error: clone_opt(&self.last_error),
            published: self.published,
            visibility: self.visibility.clone(),
            delivery: self.delivery,
            transports: clone_transports(&self.transports),
            transport_profile: self.transport_profile,
            pick_rule: self.strategies[0].pick,
            strategies: clone_strategies(&self.strategies),
            codecs: clone_codecs(&self.codecs),
            state: self.state,
            subscribers: self.subscribers,
            updated_at: self.updated_at,
        }
    }

    /// What an announcement says about the endpoint.
    pub fn summary_of(&self) -> (r: EndpointSummary)
        ensures
            r@ == self@.summary(),
    {
        EndpointSummary {
            endpoint_id: self.id.id,
            kind: self.id.kind,
            name: self.name.clone(),
            available: self.available,
            published: self.published,
        }
    }
}

/// The entry that an endpoint of this node starts with: not announced.
pub open spec fn seeded(ep: SeedEndpoint, now: u64) -> EntryModel {
    EntryModel {
        id: ep.id,
        name: ep.name@,
        target: ep.target,
        transport_profile: ep.transport_profile,
        available: ep.probe is Ok,
        last_error: match ep.probe {
            Ok(()) => None,
            Err(e) => Some(e@),
        },
        strategies: seq![ep.strategy@],
        published: false,
        visibility: VisibilityModel::Public,
        delivery: Delivery::Pull,
        transports: Seq::empty(),
        codecs: Seq::empty(),
        state: EndpointState::Idle,
        subscribers: 0,
        subscriber_nodes: Set::empty(),
        updated_at: now,
    }
}

/// The entry of an endpoint of another node, as that node's directory describes it.
pub open spec fn remote_entry(m: ManifestModel) -> EntryModel {
    EntryModel {
        id: m.id,
        name: m.name,
        target: m.target(),
        transport_profile: m.transport_profile,
        available: m.available,
        last_error: m.last_error,
        strategies: m.effective_strategies(),
        published: m.published,
        visibility: m.visibility,
        delivery: m.delivery,
        transports: m.transports,
        codecs: m.codecs,
        state: m.state,
        subscribers: m.subscribers,
        subscriber_nodes: Set::empty(),
        updated_at: m.updated_at,
    }
}

/// The transports of a kind of target, the preferred one first.
pub open spec fn preferred_transports(target: TargetKind) -> Seq<TransportPreference> {
    match target {
        TargetKind::Live => seq![
            TransportPreference { transport: TransportId::Quic, priority: 0 },
            TransportPreference { transport: TransportId::Srt, priority: 1 },
            TransportPreference { transport: TransportId::Ws, priority: 2 },
        ],
        TargetKind::Determined => seq![
            TransportPreference { transport: TransportId::Quic, priority: 0 },
            TransportPreference { transport: TransportId::Ws, priority: 1 },
        ],
    }
}

/// The endpoints of all nodes.
pub struct EndpointRegistry {
    endpoints: Table<EndpointRef, EndpointEntry>,
    file_sources: Table<EndpointRef, FileSource>,
    next_file_id: u32,
}

/// The models of the entries.
pub open spec fn entry_models(m: Map<RefModel, EndpointEntry>) -> Map<RefModel, EntryModel> {
    m.map_values(|e: EndpointEntry| e@)
}

impl View for EndpointRegistry {
    type V = Map<RefModel, EntryModel>;

    closed spec fn view(&self) -> Map<RefModel, EntryModel> {
        entry_models(self.endpoints@)
    }
}

impl Ranked for EndpointRef {
    open spec fn le(&self, other: &Self) -> bool {
        listed_le(self.id, other.id)
    }

    proof fn total(a: &Self, b: &Self) {
    }

    proof fn transitive(a: &Self, b: &Self, c: &Self) {
    }

    fn leq(&self, other: &Self) -> (r: bool) {
        listed_leq(self.id, other.id)
    }
}

/// Whether `keys` lists exactly the endpoints that are selected, each once, in listing order.
pub open spec fn lists(
    entries: Map<RefModel, EntryModel>,
    owner: Option<Seq<char>>,
    published_only: bool,
    keys: Seq<RefModel>,
) -> bool {
    &&& keys.no_duplicates()
    &&& forall|k: RefModel| #[trigger]
        keys.contains(k) <==> entries.dom().contains(k) && selected(
            k,
            entries[k],
            owner,
            published_only,
        )
    &&& forall|i: int, j: int|
        #![trigger keys[i], keys[j]]
        0 <= i < j < keys.len() ==> listed_le(keys[i].id, keys[j].id)
}

/// Whether an endpoint is selected: of the given node, if one is given, and announced, if that is
/// asked for.
pub open spec fn selected(
    k: RefModel,
    e: EntryModel,
    owner: Option<Seq<char>>,
    published_only: bool,
) -> bool {
    &&& owner is Some ==> k.owner == owner->0
    &&& published_only ==> e.published
}

/// The error of an operation on an endpoint that does not exist.
pub open spec fn no_such_endpoint(e: Error, key: RefModel) -> bool {
    e matches Error::Message(t) && t@ == "端点不存在: "@ + key.id.text()
}

impl EndpointRegistry {
    /// The files behind file endpoints.
    pub closed spec fn sources(&self) -> Map<RefModel, FileModel> {
        file_models(self.file_sources@)
    }

    /// The number that the next file endpoint gets, if it is free.
    pub closed spec fn next_file(&self) -> u32 {
        self.next_file_id
    }

    /// Every entry stands under its own id and is well-formed.
    pub closed spec fn wf(&self) -> bool {
        &&& self.endpoints.wf()
        &&& self.file_sources.wf()
        &&& forall|k: RefModel| #[trigger]
            self.endpoints@.dom().contains(k) ==> {
                &&& self.endpoints@[k].wf()
                &&& self.endpoints@[k].id == k.id
            }
        &&& forall|k: RefModel| #[trigger]
            self.file_sources@.dom().contains(k) ==> self.endpoints@.dom().contains(k)
    }

    /// Every entry stands under its own id, has a strategy, and counts its subscribers.
    pub proof fn lemma_entries(&self)
        requires
            self.wf(),
        ensures
            self@.dom().finite(),
            forall|k: RefModel| #[trigger]
                self@.dom().contains(k) ==> {
                    &&& self@[k].id == k.id
                    &&& self@[k].strategies.len() > 0
                    &&& self@[k].subscriber_nodes.finite()
                },
            forall|k: RefModel| #[trigger]
                self.sources().dom().contains(k) ==> self@.dom().contains(k),
    {
        self.endpoints.lemma_keys();
        assert(self@.dom() =~= self.endpoints@.dom());
    }

    /// No endpoints yet.
    pub fn new() -> (r: EndpointRegistry)
        ensures
            r.wf(),
            r@ == Map::<RefModel, EntryModel>::empty(),
            r.sources() == Map::<RefModel, FileModel>::empty(),
            r.next_file() == 0,
    {
        let r = EndpointRegistry {
            endpoints: Table::new(),
            file_sources: Table::new(),
            next_file_id: 0,
        };
        assert(r@ =~= Map::<RefModel, EntryModel>::empty());
        assert(r.sources() =~= Map::<RefModel, FileModel>::empty());
        r
    }

    /// The transports of a kind of target, the preferred one first.
    pub fn default_transports(target: TargetKind) -> (r: Vec<TransportPreference>)
        ensures
            r@ == preferred_transports(target),
    {
        let mut r: Vec<TransportPreference> = Vec::new();
        match target {
            TargetKind::Live => {
                r.push(TransportPreference { transport: TransportId::Quic, priority: 0 });
                r.push(TransportPreference { transport: TransportId::Srt, priority: 1 });
                r.push(TransportPreference { transport: TransportId::Ws, priority: 2 });
            },
            TargetKind::Determined => {
                r.push(TransportPreference { transport: TransportId::Quic, priority: 0 });
                r.push(TransportPreference { transport: TransportId::Ws, priority: 1 });
            },
        }
        assert(r@ =~= preferred_transports(target));
        r
    }

    /// Adds an endpoint under a node. An endpoint that is there already stays as it is, and the
    /// result is `false`. One whose probe failed is added all the same, as not available.
    pub fn seed_with_owner(&mut self, ep: SeedEndpoint, owner: &str, now: u64) -> (r: bool)
        requires
            old(self).wf(),
        ensures
            final(self).wf(),
            final(self).sources() == old(self).sources(),
            final(self).next_file() == old(self).next_file(),
            ({
                let key = RefModel { owner: owner@, id: ep.id };
                &&& r == !old(self)@.dom().contains(key)
                &&& final(self)@ == (if r {
                    old(self)@.insert(key, seeded(ep, now))
                } else {
                    old(self)@
                })
            }),
    {
        let key = EndpointRef::new(owner, ep.id);
        let ghost k = key@;
        let ghost ep0 = ep;
        if self.endpoints.contains(&key) {
            return false;
        }
        let available: bool = ep.probe.is_ok();
        let last_error: Option<String> = match ep.probe {
            Ok(()) => None,
            Err(e) => Some(e),
        };
        let mut strategies: Vec<EndpointStrategy> = Vec::new();
        strategies.push(ep.strategy);
        let entry = EndpointEntry {
            id: ep.id,
            name: ep.name,
            target: ep.target,
            transport_profile: ep.transport_profile,
            available,
            last_error,
            strategies,
            published: false,
            visibility: Visibility::Public,
            delivery: Delivery::Pull,
            transports: Vec::new(),
            codecs: Vec::new(),
            state: EndpointState::Idle,
            subscribers: 0,
            subscriber_nodes: Table::new(),
            updated_at: now,
        };
        assert(strategy_models(strategies@) =~= seq![ep0.strategy@]);
        assert(entry.subscriber_nodes@.dom() =~= Set::<Seq<char>>::empty());
        assert(entry@ =~= seeded(ep0, now));
        let ghost em = entry@;
        let _ = self.endpoints.insert(key, entry);
        assert(self@ =~= old(self)@.insert(k, em));
        true
    }

    /// Adds or replaces an endpoint of another node by what that node's directory says.
    pub fn register_remote(&mut self, m: &EndpointManifest, owner: &str)
        requires
            old(self).wf(),
        ensures
            final(self).wf(),
            final(self).sources() == old(self).sources(),
            final(self).next_file() == old(self).next_file(),
            final(self)@ == old(self)@.insert(
                RefModel { owner: owner@, id: m@.id },
                remote_entry(m@),
            ),
    {
        let id = EndpointId::new(m.kind, m.endpoint_id);
        let key = EndpointRef::new(owner, id);
        let ghost k = key@;
        let entry = EndpointEntry {
            id,
            name: m.name.clone(),
            target: m.target_kind(),
            transport_profile: m.transport_profile,
            available: m.available,
            last_error: clone_opt(&m.last_error),
            strategies: m.strategies_of(),
            published: m.published,
            visibility: m.visibility.clone(),
            delivery: m.delivery,
            transports: clone_transports(&m.transports),
            codecs: clone_codecs(&m.codecs),
            state: m.state,
            subscribers: m.subscribers,
            subscriber_nodes: Table::new(),
            updated_at: m.updated_at,
        };
        assert(entry.subscriber_nodes@.dom() =~= Set::<Seq<char>>::empty());
        assert(entry@ =~= remote_entry(m@));
        let ghost em = entry@;
        let _ = self.endpoints.insert(key, entry);
        assert(self@ =~= old(self)@.insert(k, em));
    }

    /// Whether there is such an endpoint.
    pub fn contains(&self, key: &EndpointRef) -> (r: bool)
        requires
            self.wf(),
        ensures
            r == self@.dom().contains(key@),
    {
        self.endpoints.contains(key)
    }

    /// The entry of an endpoint.
    pub fn endpoint_entry(&self, key: &EndpointRef) -> (r: Option<&EndpointEntry>)
        requires
            self.wf(),
        ensures
            match r {
                Some(e) => self@.dom().contains(key@) && e@ == self@[key@] && e.wf(),
                None => !self@.dom().contains(key@),
            },
    {
        self.endpoints.get(key)
    }

    /// The kind of target of an endpoint.
    pub fn target(&self, key: &EndpointRef) -> (r: Option<TargetKind>)
        requires
            self.wf(),
        ensures
            r == (if self@.dom().contains(key@) {
                Some(self@[key@].target)
            } else {
                None
            }),
    {
        match self.endpoints.get(key) {
            Some(e) => Some(e.target),
            None => None,
        }
    }

    /// What others are told about an endpoint.
    pub fn manifest(&self, key: &EndpointRef) -> (r: Option<EndpointManifest>)
        requires
            self.wf(),
        ensures
            match r {
                Some(m) => self@.dom().contains(key@) && m@ == self@[key@].manifest(),
                None => !self@.dom().contains(key@),
            },
    {
        match self.endpoints.get(key) {
            Some(e) => Some(e.manifest_of()),
            None => None,
        }
    }

    /// Announces an endpoint. One that does not exist, is not available, or is announced already
    /// is refused.
    pub fn publish(
        &mut self,
        key: &EndpointRef,
        visibility: Visibility,
        delivery: Delivery,
        transports: Vec<TransportPreference>,
        codecs: Vec<CodecId>,
        now: u64,
    ) -> (r: Result<EndpointManifest, Error>)
        requires
            old(self).wf(),
        ensures
            final(self).wf(),
            final(self).sources() == old(self).sources(),
            final(self).next_file() == old(self).next_file(),
            publish_outcome(
                old(self)@,
                final(self)@,
                key@,
                visibility@,
                delivery,
                transports@,
                codecs@,
                now,
                r,
            ),
    {
        let mut entry: EndpointEntry = match self.endpoints.remove(key) {
            None => {
                assert(self@ =~= old(self)@);
                return Err(Error::Message(join2("端点不存在: ", key.id.to_text().as_str())));
            },
            Some(e) => e,
        };
        let ghost before = entry@;
        let result: Result<EndpointManifest, Error>;
        if !entry.available {
            let reason: String = match &entry.last_error {
                Some(e) => e.clone(),
                None => "未知原因".to_owned(),
            };
            let mut text: String = join3("端点不可挂载（", reason.as_str(), "）: ");
            let id_text: String = key.id.to_text();
            text = join2(text.as_str(), id_text.as_str());
            result = Err(Error::Message(text));
        } else if entry.published {
            result = Err(Error::Message(join2("端点已通告: ", key.id.to_text().as_str())));
        } else {
            entry.published = true;
            entry.visibility = visibility;
            entry.delivery = delivery;
            entry.transports = transports;
            entry.codecs = codecs;
            entry.updated_at = now;
            assert(entry@ =~= before.announced(
                visibility@,
                delivery,
                transports@,
                codecs@,
                now,
            ));
            result = Ok(entry.manifest_of());
        }
        let ghost after = entry@;
        let _ = self.endpoints.insert(key.clone(), entry);
        assert(self@ =~= old(self)@.insert(key@, after));
        assert(old(self)@.insert(key@, before) =~= old(self)@);
        result
    }

    /// Takes the announcement of an endpoint back; the endpoint stays and can be announced again.
    /// The file behind a file endpoint is forgotten.
    pub fn unpublish(&mut self, key: &EndpointRef, now: u64) -> (r: Result<(), Error>)
        requires
            old(self).wf(),
        ensures
            final(self).wf(),
            final(self).next_file() == old(self).next_file(),
            !old(self)@.dom().contains(key@) ==> {
                &&& r matches Err(e) && no_such_endpoint(e, key@)
                &&& final(self)@ == old(self)@
                &&& final(self).sources() == old(self).sources()
            },
            old(self)@.dom().contains(key@) && !old(self)@[key@].published ==> {
                &&& r matches Err(Error::Message(t)) && t@ == "端点未通告: "@ + key@.id.text()
                &&& final(self)@ == old(self)@
                &&& final(self).sources() == old(self).sources()
            },
            old(self)@.dom().contains(key@) && old(self)@[key@].published ==> {
                &&& r is Ok
                &&& final(self)@ == old(self)@.insert(key@, old(self)@[key@].withdrawn(now))
                &&& final(self).sources() == old(self).sources().remove(key@)
            },
    {
        let mut entry: EndpointEntry = match self.endpoints.remove(key) {
            None => {
                assert(self@ =~= old(self)@);
                return Err(Error::Message(join2("端点不存在: ", key.id.to_text().as_str())));
            },
            Some(e) => e,
        };
        let ghost before = entry@;
        let was: bool = entry.published;
        if was {
            entry.published = false;
            entry.visibility = Visibility::Public;
            entry.delivery = Delivery::Pull;
            entry.transports = Vec::new();
            entry.codecs = Vec::new();
            entry.state = EndpointState::Idle;
            entry.subscribers = 0;
            entry.subscriber_nodes = Table::new();
            entry.updated_at = now;
            assert(entry@ =~= before.withdrawn(now));
        }
        let ghost after = entry@;
        let _ = self.endpoints.insert(key.clone(), entry);
        assert(self@ =~= old(self)@.insert(key@, after));
        assert(old(self)@.insert(key@, before) =~= old(self)@);
        if !was {
            return Err(Error::Message(join2("端点未通告: ", key.id.to_text().as_str())));
        }
        let _ = self.file_sources.remove(key);
        assert(self.sources() =~= old(self).sources().remove(key@));
        Ok(())
    }
}

impl EndpointRegistry {
    /// The selected endpoints in listing order.
    fn listing(&self, owner: Option<&str>, published_only: bool) -> (r: Vec<EndpointRef>)
        requires
            self.wf(),
        ensures
            lists(self@, str_view(owner), published_only, ref_models(r@)),
    {
        let mut v: Vec<EndpointRef> = Vec::new();
        let n: usize = self.endpoints.len();
        let mut i: usize = 0;
        let ghost keys = self.endpoints.keys();
        proof {
            self.endpoints.lemma_keys();
        }
        while i < n
            invariant
                self.wf(),
                n == keys.len(),
                keys == self.endpoints.keys(),
                keys.no_duplicates(),
                i <= n,
                ref_models(v@).no_duplicates(),
                forall|k: RefModel| #[trigger]
                    ref_models(v@).contains(k) <==> keys.take(i as int).contains(k) && selected(
                        k,
                        self@[k],
                        str_view(owner),
                        published_only,
                    ),
            decreases n - i,
        {
            let k: &EndpointRef = self.endpoints.key_at(i);
            let e: &EndpointEntry = self.endpoints.value_at(i);
            let mine: bool = match owner {
                Some(o) => same(k.owner.as_str(), o),
                None => true,
            };
            let take: bool = mine && (!published_only || e.published);
            let ghost v0 = v@;
            let ghost key = keys[i as int];
            assert(self@[key] == e@);
            assert(take == selected(key, self@[key], str_view(owner), published_only));
            if take {
                v.push(k.clone());
            }
            proof {
                let before = keys.take(i as int);
                let next = keys.take(i as int + 1);
                assert(next =~= before.push(key));
                assert(!before.contains(key));
                if take {
                    assert(ref_models(v@) =~= ref_models(v0).push(key));
                    assert(!ref_models(v0).contains(key));
                }
                assert forall|x: RefModel| #[trigger] ref_models(v@).contains(x) <==> next.contains(
                    x,
                ) && selected(x, self@[x], str_view(owner), published_only) by {
                    lemma_push_contains(before, key, x);
                    if take {
                        lemma_push_contains(ref_models(v0), key, x);
                    }
                }
            }
            i += 1;
        }
        let ghost unsorted = v@;
        let r = sort(v);
        proof {
            assert(keys.take(n as int) =~= keys);
            self.endpoints.lemma_keys();
            let f = |k: EndpointRef| k@;
            assert(unsorted.map_values(f) =~= ref_models(unsorted));
            assert(r@.map_values(f) =~= ref_models(r@));
            lemma_same_images(unsorted, r@, f);
            assert forall|k: RefModel| #[trigger] ref_models(r@).contains(k) <==> self@.dom().contains(
                k,
            ) && selected(k, self@[k], str_view(owner), published_only) by {
                assert(ref_models(unsorted).contains(k) <==> ref_models(r@).contains(k));
                assert(keys.contains(k) <==> self.endpoints@.dom().contains(k));
            }
            assert(self@.dom() =~= self.endpoints@.dom());
            assert forall|i: int, j: int|
                #![trigger ref_models(r@)[i], ref_models(r@)[j]]
                0 <= i < j < r@.len() implies listed_le(
                ref_models(r@)[i].id,
                ref_models(r@)[j].id,
            ) by {
                assert(r@[i].le(&r@[j]));
            }
        }
        r
    }

    /// The manifests of the selected endpoints in listing order.
    fn manifest_list(&self, owner: Option<&str>, published_only: bool) -> (r: Vec<EndpointManifest>)
        requires
            self.wf(),
        ensures
            manifests_listed(self@, str_view(owner), published_only, r@),
    {
        let keys = self.listing(owner, published_only);
        let ghost ks = ref_models(keys@);
        let mut r: Vec<EndpointManifest> = Vec::new();
        let mut i: usize = 0;
        while i < keys.len()
            invariant
                self.wf(),
                ks == ref_models(keys@),
                lists(self@, str_view(owner), published_only, ks),
                i <= keys@.len(),
                r@.len() == i,
                forall|j: int| 0 <= j < i ==> (#[trigger] r@[j])@ == self@[ks[j]].manifest(),
            decreases keys.len() - i,
        {
            assert(ks.contains(ks[i as int]));
            match self.endpoints.get(&keys[i]) {
                Some(e) => {
                    r.push(e.manifest_of());
                },
                None => {},
            }
            i += 1;
        }
        r
    }

    /// All endpoints, or those of one node, in listing order.
    pub fn manifests_of(&self, owner: Option<&str>) -> (r: Vec<EndpointManifest>)
        requires
            self.wf(),
        ensures
            manifests_listed(self@, str_view(owner), false, r@),
    {
        self.manifest_list(owner, false)
    }

    /// All endpoints of all nodes, in listing order.
    pub fn manifests(&self) -> (r: Vec<EndpointManifest>)
        requires
            self.wf(),
        ensures
            manifests_listed(self@, None, false, r@),
    {
        self.manifest_list(None, false)
    }

    /// The announced endpoints, or those of one node, in listing order.
    pub fn published_manifests_of(&self, owner: Option<&str>) -> (r: Vec<EndpointManifest>)
        requires
            self.wf(),
        ensures
            manifests_listed(self@, str_view(owner), true, r@),
    {
        self.manifest_list(owner, true)
    }

    /// The announced endpoints of all nodes, in listing order.
    pub fn published_manifests(&self) -> (r: Vec<EndpointManifest>)
        requires
            self.wf(),
        ensures
            manifests_listed(self@, None, true, r@),
    {
        self.manifest_list(None, true)
    }

    /// The short forms of all endpoints, or of those of one node, in listing order; those that
    /// are not available or not announced are among them.
    pub fn summaries_of(&self, owner: Option<&str>) -> (r: Vec<EndpointSummary>)
        requires
            self.wf(),
        ensures
            summaries_listed(self@, str_view(owner), r@),
    {
        let keys = self.listing(owner, false);
        let ghost ks = ref_models(keys@);
        let mut r: Vec<EndpointSummary> = Vec::new();
        let mut i: usize = 0;
        while i < keys.len()
            invariant
                self.wf(),
                ks == ref_models(keys@),
                lists(self@, str_view(owner), false, ks),
                i <= keys@.len(),
                r@.len() == i,
                forall|j: int| 0 <= j < i ==> (#[trigger] r@[j])@ == self@[ks[j]].summary(),
            decreases keys.len() - i,
        {
            assert(ks.contains(ks[i as int]));
            match self.endpoints.get(&keys[i]) {
                Some(e) => {
                    r.push(e.summary_of());
                },
                None => {},
            }
            i += 1;
        }
        r
    }

    /// The short forms of all endpoints of all nodes, in listing order.
    pub fn summaries(&self) -> (r: Vec<EndpointSummary>)
        requires
            self.wf(),
        ensures
            summaries_listed(self@, None, r@),
    {
        self.summaries_of(None)
    }

    /// Sets the running state of an endpoint; `false` when there is no such endpoint.
    pub fn set_state(
        &mut self,
        key: &EndpointRef,
        state: EndpointState,
        subscribers: u32,
        now: u64,
    ) -> (r: bool)
        requires
            old(self).wf(),
        ensures
            final(self).wf(),
            final(self).sources() == old(self).sources(),
            final(self).next_file() == old(self).next_file(),
            r == old(self)@.dom().contains(key@),
            final(self)@ == (if r {
                old(self)@.insert(
                    key@,
                    EntryModel { state, subscribers, updated_at: now, ..old(self)@[key@] },
                )
            } else {
                old(self)@
            }),
    {
        match self.endpoints.remove(key) {
            None => {
                assert(self@ =~= old(self)@);
                false
            },
            Some(e) => {
                let mut entry: EndpointEntry = e;
                entry.state = state;
                entry.subscribers = subscribers;
                entry.updated_at = now;
                let ghost after = entry@;
                let _ = self.endpoints.insert(key.clone(), entry);
                assert(self@ =~= old(self)@.insert(key@, after));
                true
            },
        }
    }

    /// Notes that a node subscribes to an endpoint, and counts the subscribers anew. Nothing
    /// happens when there is no such endpoint.
    pub fn note_subscriber(&mut self, key: &EndpointRef, node: &str, now: u64)
        requires
            old(self).wf(),
            old(self)@.dom().contains(key@) ==> old(self)@[key@].subscriber_nodes.len() < u32::MAX,
        ensures
            final(self).wf(),
            final(self).sources() == old(self).sources(),
            final(self).next_file() == old(self).next_file(),
            final(self)@ == (if old(self)@.dom().contains(key@) {
                old(self)@.insert(key@, old(self)@[key@].with_subscriber(node@, now))
            } else {
                old(self)@
            }),
    {
        match self.endpoints.remove(key) {
            None => {
                assert(self@ =~= old(self)@);
            },
            Some(e) => {
                let mut entry: EndpointEntry = e;
                let ghost before = entry@;
                let ghost nodes0 = entry.subscriber_nodes@;
                let _ = entry.subscriber_nodes.insert(node.to_owned(), ());
                assert(entry.subscriber_nodes@.dom() =~= nodes0.dom().insert(node@));
                entry.subscribers = entry.subscriber_nodes.len() as u32;
                entry.updated_at = now;
                let ghost after = entry@;
                assert(after =~= before.with_subscriber(node@, now));
                let _ = self.endpoints.insert(key.clone(), entry);
                assert(self@ =~= old(self)@.insert(key@, after));
            },
        }
    }

    /// Notes that a node no longer subscribes to an endpoint, and returns how many still do.
    pub fn note_unsubscriber(&mut self, key: &EndpointRef, node: &str, now: u64) -> (r: u32)
        requires
            old(self).wf(),
        ensures
            final(self).wf(),
            final(self).sources() == old(self).sources(),
            final(self).next_file() == old(self).next_file(),
            !old(self)@.dom().contains(key@) ==> r == 0 && final(self)@ == old(self)@,
            old(self)@.dom().contains(key@) ==> {
                let e = old(self)@[key@].without_subscriber(node@, now);
                &&& final(self)@ == old(self)@.insert(key@, e)
                &&& r == e.subscribers
                &&& r == old(self)@[key@].subscriber_nodes.remove(node@).len()
            },
    {
        match self.endpoints.remove(key) {
            None => {
                assert(self@ =~= old(self)@);
                0
            },
            Some(e) => {
                let mut entry: EndpointEntry = e;
                let ghost before = entry@;
                let ghost nodes0 = entry.subscriber_nodes@;
                let _ = entry.subscriber_nodes.remove(&node.to_owned());
                assert(entry.subscriber_nodes@.dom() =~= nodes0.dom().remove(node@));
                assert(entry.subscriber_nodes@.dom().len() <= nodes0.dom().len());
                let n: u32 = entry.subscriber_nodes.len() as u32;
                entry.subscribers = n;
                entry.updated_at = now;
                let ghost after = entry@;
                assert(after =~= before.without_subscriber(node@, now));
                let _ = self.endpoints.insert(key.clone(), entry);
                assert(self@ =~= old(self)@.insert(key@, after));
                n
            },
        }
    }

    /// Forgets the subscribers of an endpoint.
    pub fn clear_subscribers(&mut self, key: &EndpointRef)
        requires
            old(self).wf(),
        ensures
            final(self).wf(),
            final(self).sources() == old(self).sources(),
            final(self).next_file() == old(self).next_file(),
            final(self)@ == (if old(self)@.dom().contains(key@) {
                old(self)@.insert(
                    key@,
                    EntryModel {
                        subscribers: 0,
                        subscriber_nodes: Set::empty(),
                        ..old(self)@[key@]
                    },
                )
            } else {
                old(self)@
            }),
    {
        match self.endpoints.remove(key) {
            None => {
                assert(self@ =~= old(self)@);
            },
            Some(e) => {
                let mut entry: EndpointEntry = e;
                entry.subscriber_nodes = Table::new();
                entry.subscribers = 0;
                assert(entry.subscriber_nodes@.dom() =~= Set::<Seq<char>>::empty());
                let ghost after = entry@;
                let _ = self.endpoints.insert(key.clone(), entry);
                assert(self@ =~= old(self)@.insert(key@, after));
            },
        }
    }

    /// The nodes that subscribe to an endpoint, each once, in no particular order.
    pub fn subscriber_nodes(&self, key: &EndpointRef) -> (r: Option<Vec<String>>)
        requires
            self.wf(),
        ensures
            match r {
                Some(v) => {
                    &&& self@.dom().contains(key@)
                    &&& texts(v@).no_duplicates()
                    &&& texts(v@).to_set() == self@[key@].subscriber_nodes
                },
                None => !self@.dom().contains(key@),
            },
    {
        match self.endpoints.get(key) {
            None => None,
            Some(e) => {
                let mut v: Vec<String> = Vec::new();
                let n: usize = e.subscriber_nodes.len();
                let ghost keys = e.subscriber_nodes.keys();
                let mut i: usize = 0;
                proof {
                    e.subscriber_nodes.lemma_keys();
                }
                while i < n
                    invariant
                        e.wf(),
                        n == keys.len(),
                        keys == e.subscriber_nodes.keys(),
                        i <= n,
                        texts(v@) == keys.take(i as int),
                    decreases n - i,
                {
                    let ghost v0 = v@;
                    let k: String = e.subscriber_nodes.key_at(i).clone();
                    v.push(k);
                    assert(texts(v@) =~= texts(v0).push(keys[i as int]));
                    assert(texts(v@) =~= keys.take(i as int + 1));
                    i += 1;
                }
                proof {
                    assert(texts(v@) =~= keys);
                    assert(self@[key@] == e@);
                }
                Some(v)
            },
        }
    }

    /// Whether a subscription can be handed to an endpoint: whether there is such an endpoint.
    pub fn on_subscribed(&self, key: &EndpointRef) -> (r: bool)
        requires
            self.wf(),
        ensures
            r == self@.dom().contains(key@),
    {
        self.endpoints.contains(key)
    }

    /// The file behind a file endpoint.
    pub fn file_source(&self, key: &EndpointRef) -> (r: Option<&FileSource>)
        requires
            self.wf(),
        ensures
            match r {
                Some(f) => self.sources().dom().contains(key@) && f@ == self.sources()[key@],
                None => !self.sources().dom().contains(key@),
            },
    {
        self.file_sources.get(key)
    }
}

/// Whether `r` holds the manifests of the selected endpoints, each once, in listing order.
pub open spec fn manifests_listed(
    entries: Map<RefModel, EntryModel>,
    owner: Option<Seq<char>>,
    published_only: bool,
    r: Seq<EndpointManifest>,
) -> bool {
    exists|keys: Seq<RefModel>|
        {
            &&& #[trigger] lists(entries, owner, published_only, keys)
            &&& r.len() == keys.len()
            &&& forall|i: int| 0 <= i < r.len() ==> (#[trigger] r[i])@ == entries[keys[i]].manifest()
        }
}

/// Whether `r` holds the short forms of the selected endpoints, each once, in listing order.
pub open spec fn summaries_listed(
    entries: Map<RefModel, EntryModel>,
    owner: Option<Seq<char>>,
    r: Seq<EndpointSummary>,
) -> bool {
    exists|keys: Seq<RefModel>|
        {
            &&& #[trigger] lists(entries, owner, false, keys)
            &&& r.len() == keys.len()
            &&& forall|i: int| 0 <= i < r.len() ==> (#[trigger] r[i])@ == entries[keys[i]].summary()
        }
}

/// The outcome of announcing an endpoint.
pub open spec fn publish_outcome(
    pre: Map<RefModel, EntryModel>,
    post: Map<RefModel, EntryModel>,
    key: RefModel,
    visibility: VisibilityModel,
    delivery: Delivery,
    transports: Seq<TransportPreference>,
    codecs: Seq<CodecId>,
    now: u64,
    r: Result<EndpointManifest, Error>,
) -> bool {
    if !pre.dom().contains(key) {
        &&& r matches Err(e) && no_such_endpoint(e, key)
        &&& post == pre
    } else if !pre[key].available {
        let reason = match pre[key].last_error {
            Some(e) => e,
            None => "未知原因"@,
        };
        &&& r matches Err(Error::Message(t)) && t@ == "端点不可挂载（"@ + reason + "）: "@
            + key.id.text()
        &&& post == pre
    } else if pre[key].published {
        &&& r matches Err(Error::Message(t)) && t@ == "端点已通告: "@ + key.id.text()
        &&& post == pre
    } else {
        let e = pre[key].announced(visibility, delivery, transports, codecs, now);
        &&& r matches Ok(m) && m@ == e.manifest()
        &&& post == pre.insert(key, e)
    }
}

/// What the file system says about a file.
pub struct FileMeta {
    pub is_file: bool,
    pub size: u64,
}

/// A file that is to be shared.
pub struct FileOffer {
    pub path: String,
    /// The last part of the path, if it has one.
    pub file_name: Option<String>,
    /// What the file system says about it, or why it cannot be asked.
    pub meta: Result<FileMeta, String>,
    /// Whether the file can be read, or why not.
    pub probe: Result<(), String>,
}

impl FileOffer {
    /// The name under which the file is shown.
    pub open spec fn shown_name(&self) -> Seq<char> {
        match self.file_name {
            Some(n) => n@,
            None => "未命名"@,
        }
    }

    /// Whether the file system knows it as a regular file.
    pub open spec fn regular(&self) -> bool {
        self.meta matches Ok(m) && m.is_file
    }
}

/// The entry that a shared file starts with: a fixed target that is read in order.
pub open spec fn file_entry(offer: &FileOffer, id: EndpointId, now: u64) -> EntryModel {
    EntryModel {
        id,
        name: offer.shown_name(),
        target: TargetKind::Determined,
        transport_profile: ReliabilityProfile::Lossless,
        available: offer.probe is Ok,
        last_error: match offer.probe {
            Ok(()) => None,
            Err(e) => Some(e@),
        },
        strategies: seq![EndpointStrategy::plain(PickRule::StrictOrdered)],
        published: false,
        visibility: VisibilityModel::Public,
        delivery: Delivery::Pull,
        transports: Seq::empty(),
        codecs: Seq::empty(),
        state: EndpointState::Idle,
        subscribers: 0,
        subscriber_nodes: Set::empty(),
        updated_at: now,
    }
}

/// The name of the file endpoint with the number `n`.
pub open spec fn file_key(owner: Seq<char>, n: u32) -> RefModel {
    RefModel { owner, id: EndpointId { kind: MediaKind::File, id: n } }
}

/// Whether `n` is the first free number of a file endpoint from `from` on.
pub open spec fn first_free(
    entries: Map<RefModel, EntryModel>,
    owner: Seq<char>,
    from: u32,
    n: u32,
) -> bool {
    &&& from <= n
    &&& !entries.dom().contains(file_key(owner, n))
    &&& forall|m: u32| from <= m < n ==> entries.dom().contains(#[trigger] file_key(owner, m))
}

/// The outcome of sharing a file.
pub open spec fn file_published(
    pre: &EndpointRegistry,
    post: &EndpointRegistry,
    offer: &FileOffer,
    visibility: VisibilityModel,
    delivery: Delivery,
    owner: Seq<char>,
    now: u64,
    r: Result<EndpointManifest, Error>,
) -> bool {
    match offer.meta {
        Err(e) => {
            &&& r matches Err(Error::Message(t)) && t@ == "文件不可读 "@ + offer.path@ + ": "@ + e@
            &&& *post == *pre
        },
        Ok(m) => if !m.is_file {
            &&& r matches Err(Error::Message(t)) && t@ == "不是普通文件: "@ + offer.path@
            &&& *post == *pre
        } else {
            exists|n: u32|
                #[trigger] first_free(pre@, owner, pre.next_file(), n) && file_mounted(
                    pre,
                    post,
                    offer,
                    file_key(owner, n),
                    m.size,
                    visibility,
                    delivery,
                    now,
                    r,
                )
        },
    }
}

/// What sharing a regular file under the given key does.
pub open spec fn file_mounted(
    pre: &EndpointRegistry,
    post: &EndpointRegistry,
    offer: &FileOffer,
    key: RefModel,
    size: u64,
    visibility: VisibilityModel,
    delivery: Delivery,
    now: u64,
    r: Result<EndpointManifest, Error>,
) -> bool {
    &&& post.next_file() == key.id.id + 1
    &&& post.sources() == pre.sources().insert(
        key,
        FileModel { path: offer.path@, name: offer.shown_name(), size },
    )
    &&& publish_outcome(
        pre@.insert(key, file_entry(offer, key.id, now)),
        post@,
        key,
        visibility,
        delivery,
        preferred_transports(TargetKind::Determined),
        Seq::empty(),
        now,
        r,
    )
}

/// The map without what belongs to the given node.
pub open spec fn without_owner<V>(m: Map<RefModel, V>, owner: Seq<char>) -> Map<RefModel, V> {
    Map::new(|k: RefModel| k.owner != owner && m.dom().contains(k), |k: RefModel| m[k])
}

/// The map after the endpoints of one node were handed over to another: each stands under its new
/// node, in place of an endpoint of the same name that stood there.
pub open spec fn handed_over<V>(m: Map<RefModel, V>, from: Seq<char>, to: Seq<char>) -> Map<
    RefModel,
    V,
> {
    Map::new(
        |k: RefModel|
            k.owner != from && m.dom().contains(k) || k.owner == to && m.dom().contains(
                RefModel { owner: from, id: k.id },
            ),
        |k: RefModel|
            if k.owner == to && m.dom().contains(RefModel { owner: from, id: k.id }) {
                m[RefModel { owner: from, id: k.id }]
            } else {
                m[k]
            },
    )
}

/// The map after the listed endpoints were handed over one after the other.
spec fn handed_keys<V>(m: Map<RefModel, V>, keys: Seq<RefModel>, to: Seq<char>) -> Map<RefModel, V>
    decreases keys.len(),
{
    if keys.len() == 0 {
        m
    } else {
        let rest = handed_keys(m, keys.drop_last(), to);
        let k = keys.last();
        if rest.dom().contains(k) {
            rest.remove(k).insert(RefModel { owner: to, id: k.id }, rest[k])
        } else {
            rest
        }
    }
}

proof fn lemma_handed_keys<V>(
    m: Map<RefModel, V>,
    keys: Seq<RefModel>,
    from: Seq<char>,
    to: Seq<char>,
)
    requires
        from != to,
        keys.no_duplicates(),
        forall|i: int| 0 <= i < keys.len() ==> (#[trigger] keys[i]).owner == from,
    ensures
        forall|k: RefModel| #[trigger]
            handed_keys(m, keys, to).dom().contains(k) <==> {
                ||| m.dom().contains(k) && !keys.contains(k)
                ||| k.owner == to && keys.contains(RefModel { owner: from, id: k.id })
                    && m.dom().contains(RefModel { owner: from, id: k.id })
            },
        forall|k: RefModel| #[trigger]
            handed_keys(m, keys, to).dom().contains(k) ==> handed_keys(m, keys, to)[k] == (
            if k.owner == to && keys.contains(RefModel { owner: from, id: k.id })
                && m.dom().contains(RefModel { owner: from, id: k.id }) {
                m[RefModel { owner: from, id: k.id }]
            } else {
                m[k]
            }),
    decreases keys.len(),
{
    if keys.len() > 0 {
        let p = keys.drop_last();
        let k0 = keys.last();
        assert(keys[keys.len() - 1] == k0);
        assert forall|i: int| 0 <= i < p.len() implies (#[trigger] p[i]).owner == from by {
            assert(p[i] == keys[i]);
        }
        lemma_handed_keys(m, p, from, to);
        assert(keys =~= p.push(k0));
        assert(!p.contains(k0)) by {
            if p.contains(k0) {
                let i = choose|i: int| 0 <= i < p.len() && p[i] == k0;
                assert(keys[i] == keys[keys.len() - 1]);
            }
        }
        let rest = handed_keys(m, p, to);
        let nk = RefModel { owner: to, id: k0.id };
        assert(k0 == RefModel { owner: from, id: k0.id });
        assert forall|k: RefModel| #[trigger] handed_keys(m, keys, to).dom().contains(k) <==> {
            ||| m.dom().contains(k) && !keys.contains(k)
            ||| k.owner == to && keys.contains(RefModel { owner: from, id: k.id })
                && m.dom().contains(RefModel { owner: from, id: k.id })
        } by {
            lemma_push_contains(p, k0, k);
            lemma_push_contains(p, k0, RefModel { owner: from, id: k.id });
            assert(rest.dom().contains(k0) <==> m.dom().contains(k0));
            assert(rest.dom().contains(k) <==> {
                ||| m.dom().contains(k) && !p.contains(k)
                ||| k.owner == to && p.contains(RefModel { owner: from, id: k.id })
                    && m.dom().contains(RefModel { owner: from, id: k.id })
            });
        }
        assert forall|k: RefModel| #[trigger]
            handed_keys(m, keys, to).dom().contains(k) implies handed_keys(m, keys, to)[k] == (
        if k.owner == to && keys.contains(RefModel { owner: from, id: k.id }) && m.dom().contains(
            RefModel { owner: from, id: k.id },
        ) {
            m[RefModel { owner: from, id: k.id }]
        } else {
            m[k]
        }) by {
            lemma_push_contains(p, k0, k);
            lemma_push_contains(p, k0, RefModel { owner: from, id: k.id });
            assert(rest.dom().contains(k0) <==> m.dom().contains(k0));
            assert(k != nk ==> rest.dom().contains(k));
        }
    }
}

impl EndpointRegistry {
    /// Adds an endpoint under the node that has no id yet.
    pub fn seed(&mut self, ep: SeedEndpoint, now: u64) -> (r: bool)
        requires
            old(self).wf(),
        ensures
            final(self).wf(),
            final(self).sources() == old(self).sources(),
            final(self).next_file() == old(self).next_file(),
            ({
                let key = RefModel { owner: ""@, id: ep.id };
                &&& r == !old(self)@.dom().contains(key)
                &&& final(self)@ == (if r {
                    old(self)@.insert(key, seeded(ep, now))
                } else {
                    old(self)@
                })
            }),
    {
        self.seed_with_owner(ep, "", now)
    }

    /// The first free number of a file endpoint; `None` when there is none left.
    pub fn free_file_id(&self, owner: &str) -> (r: Option<u32>)
        requires
            self.wf(),
        ensures
            match r {
                Some(n) => n < u32::MAX && first_free(self@, owner@, self.next_file(), n),
                None => forall|n: u32|
                    self.next_file() <= n < u32::MAX ==> self@.dom().contains(
                        #[trigger] file_key(owner@, n),
                    ),
            },
    {
        let mut n: u32 = self.next_file_id;
        while n < u32::MAX
            invariant
                self.wf(),
                self.next_file_id <= n,
                forall|m: u32|
                    self.next_file_id <= m < n ==> self@.dom().contains(
                        #[trigger] file_key(owner@, m),
                    ),
            decreases u32::MAX - n,
        {
            let key = EndpointRef::new(owner, EndpointId::new(MediaKind::File, n));
            assert(key@ == file_key(owner@, n));
            if !self.endpoints.contains(&key) {
                return Some(n);
            }
            n += 1;
        }
        None
    }

    /// Shares a file as an endpoint of its own. The number of the endpoint is the next one that is
    /// free; the file name is shown but is no part of the endpoint's name.
    pub fn publish_file(
        &mut self,
        offer: &FileOffer,
        visibility: Visibility,
        delivery: Delivery,
        owner: &str,
        now: u64,
    ) -> (r: Result<EndpointManifest, Error>)
        requires
            old(self).wf(),
            exists|n: u32|
                old(self).next_file() <= n < u32::MAX && !old(self)@.dom().contains(
                    #[trigger] file_key(owner@, n),
                ),
        ensures
            final(self).wf(),
            file_published(
                old(self),
                final(self),
                offer,
                visibility@,
                delivery,
                owner@,
                now,
                r,
            ),
    {
        let size: u64 = match &offer.meta {
            Err(e) => {
                let a: String = join3("文件不可读 ", offer.path.as_str(), ": ");
                return Err(Error::Message(join2(a.as_str(), e.as_str())));
            },
            Ok(m) => {
                if !m.is_file {
                    return Err(Error::Message(join2("不是普通文件: ", offer.path.as_str())));
                }
                m.size
            },
        };
        let name: String = match &offer.file_name {
            Some(n) => n.clone(),
            None => "未命名".to_owned(),
        };
        let n: u32 = match self.free_file_id(owner) {
            Some(n) => n,
            None => {
                return Err(Error::Message("端点已存在: ".to_owned()));
            },
        };
        let ghost pre = *self;
        self.next_file_id = n + 1;
        let id = EndpointId::new(MediaKind::File, n);
        let key = EndpointRef::new(owner, id);
        assert(key@ == file_key(owner@, n));
        let probe: Result<(), String> = match &offer.probe {
            Ok(()) => Ok(()),
            Err(e) => Err(e.clone()),
        };
        let ep = SeedEndpoint {
            id,
            name: name.clone(),
            target: TargetKind::Determined,
            transport_profile: ReliabilityProfile::Lossless,
            strategy: EndpointStrategy::passthrough(PickRule::StrictOrdered),
            probe,
        };
        let ghost e = seeded(ep, now);
        assert(e =~= file_entry(offer, id, now));
        let _ = self.seed_with_owner(ep, owner, now);
        let ghost mid = *self;
        let _ = self.file_sources.insert(
            key.clone(),
            FileSource { path: offer.path.clone(), name, size },
        );
        assert(self@ == mid@);
        assert(self.wf()) by {
            assert(mid@.dom().contains(key@));
            assert forall|k: RefModel| #[trigger]
                self.file_sources@.dom().contains(k) implies self.endpoints@.dom().contains(k) by {
                assert(k == key@ || mid.file_sources@.dom().contains(k));
            }
        }
        assert(self.sources() =~= pre.sources().insert(
            key@,
            FileModel { path: offer.path@, name: offer.shown_name(), size },
        ));
        let r = self.publish(
            &key,
            visibility,
            delivery,
            EndpointRegistry::default_transports(TargetKind::Determined),
            Vec::new(),
            now,
        );
        assert(first_free(pre@, owner@, pre.next_file(), n));
        r
    }

    /// Forgets the endpoints of a node, with the files behind them.
    pub fn forget(&mut self, owner: &str)
        requires
            old(self).wf(),
        ensures
            final(self).wf(),
            final(self).next_file() == old(self).next_file(),
            final(self)@ == without_owner(old(self)@, owner@),
            final(self).sources() == without_owner(old(self).sources(), owner@),
    {
        let keys = self.listing(Some(owner), false);
        let ghost ks = ref_models(keys@);
        let ghost m0 = self@;
        let ghost s0 = self.sources();
        let mut i: usize = 0;
        while i < keys.len()
            invariant
                self.wf(),
                ks == ref_models(keys@),
                i <= keys@.len(),
                self.next_file_id == old(self).next_file_id,
                forall|k: RefModel| #[trigger]
                    self@.dom().contains(k) <==> m0.dom().contains(k) && !ks.take(
                        i as int,
                    ).contains(k),
                forall|k: RefModel| #[trigger] self@.dom().contains(k) ==> self@[k] == m0[k],
                forall|k: RefModel| #[trigger]
                    self.sources().dom().contains(k) <==> s0.dom().contains(k) && !ks.take(
                        i as int,
                    ).contains(k),
                forall|k: RefModel| #[trigger]
                    self.sources().dom().contains(k) ==> self.sources()[k] == s0[k],
            decreases keys.len() - i,
        {
            let ghost before = self@;
            let ghost sources_before = self.sources();
            let ghost gone = ks[i as int];
            let ghost (then, next) = (ks.take(i as int), ks.take(i as int + 1));
            let _ = self.endpoints.remove(&keys[i]);
            let _ = self.file_sources.remove(&keys[i]);
            proof {
                assert(self@ =~= before.remove(gone));
                assert(self.sources() =~= sources_before.remove(gone));
                assert(next =~= then.push(gone));
                assert forall|k: RefModel| next.contains(k) <==> then.contains(k) || k == gone by {
                    lemma_push_contains(then, gone, k);
                }
                assert forall|k: RefModel| #[trigger]
                    self.file_sources@.dom().contains(k) implies self.endpoints@.dom().contains(k) by {
                    assert(sources_before.dom().contains(k));
                    assert(before.dom().contains(k));
                }
            }
            i += 1;
        }
        proof {
            assert(ks.take(ks.len() as int) =~= ks);
            assert forall|k: RefModel| ks.contains(k) <==> m0.dom().contains(k) && k.owner
                == owner@ by {}
            assert(self@ =~= without_owner(m0, owner@));
            assert forall|k: RefModel| s0.dom().contains(k) implies m0.dom().contains(k) by {
                assert(old(self).file_sources@.dom().contains(k));
            }
            assert(self.sources() =~= without_owner(s0, owner@));
        }
    }

    /// Hands the endpoints of one node over to another, with the files behind them.
    pub fn hand_over(&mut self, from: &str, to: &str)
        requires
            old(self).wf(),
            from@ != to@,
        ensures
            final(self).wf(),
            final(self).next_file() == old(self).next_file(),
            final(self)@ == handed_over(old(self)@, from@, to@),
            final(self).sources() == handed_over(old(self).sources(), from@, to@),
    {
        let keys = self.listing(Some(from), false);
        let ghost ks = ref_models(keys@);
        let ghost m0 = self@;
        let ghost s0 = self.sources();
        let mut i: usize = 0;
        assert(ks.take(0) =~= Seq::<RefModel>::empty());
        assert(forall|j: int| 0 <= j < ks.len() ==> (#[trigger] ks[j]).owner == from@) by {
            assert forall|j: int| 0 <= j < ks.len() implies (#[trigger] ks[j]).owner == from@ by {
                assert(ks.contains(ks[j]));
            }
        }
        while i < keys.len()
            invariant
                self.handing_over(),
                ks == ref_models(keys@),
                i <= keys@.len(),
                self.next_file_id == old(self).next_file_id,
                self@ == handed_keys(m0, ks.take(i as int), to@),
                self.sources() == handed_keys(s0, ks.take(i as int), to@),
            decreases keys.len() - i,
        {
            let ghost before = self@;
            let ghost sources_before = self.sources();
            let ghost k = ks[i as int];
            let key: &EndpointRef = &keys[i];
            let new_key = EndpointRef::new(to, key.id);
            let ghost nk = new_key@;
            match self.endpoints.remove(key) {
                None => {
                    assert(self@ =~= before);
                },
                Some(e) => {
                    let _ = self.endpoints.insert(new_key.clone(), e);
                    assert(self@ =~= before.remove(k).insert(nk, before[k]));
                },
            }
            match self.file_sources.remove(key) {
                None => {
                    assert(self.sources() =~= sources_before);
                },
                Some(f) => {
                    let _ = self.file_sources.insert(new_key, f);
                    assert(self.sources() =~= sources_before.remove(k).insert(
                        nk,
                        sources_before[k],
                    ));
                },
            }
            proof {
                let next = ks.take(i as int + 1);
                assert(next.drop_last() =~= ks.take(i as int));
                assert(next.last() == k);
            }
            i += 1;
        }
        proof {
            assert(ks.take(ks.len() as int) =~= ks);
            lemma_handed_keys(m0, ks, from@, to@);
            lemma_handed_keys(s0, ks, from@, to@);
            assert forall|k: RefModel| k.owner == from@ && m0.dom().contains(k) implies ks.contains(
                k,
            ) by {}
            assert(self@ =~= handed_over(m0, from@, to@));
            assert(self.sources() =~= handed_over(s0, from@, to@));
            assert forall|k: RefModel| #[trigger]
                self.file_sources@.dom().contains(k) implies self.endpoints@.dom().contains(k) by {
                assert(self.sources().dom().contains(k));
                assert(self@.dom().contains(k));
            }
        }
    }

    /// What holds while endpoints are handed over.
    spec fn handing_over(&self) -> bool {
        &&& self.endpoints.wf()
        &&& self.file_sources.wf()
        &&& forall|k: RefModel| #[trigger]
            self.endpoints@.dom().contains(k) ==> {
                &&& self.endpoints@[k].wf()
                &&& self.endpoints@[k].id == k.id
            }
    }
}

} // verus!
