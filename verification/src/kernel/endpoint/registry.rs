//! The nodes that are known, each with the names of its endpoints, and the endpoints themselves.

use vstd::prelude::*;

use crate::error::Error;
use crate::kernel::endpoint::file_source::{FileModel, FileSource};
use crate::kernel::endpoint::manifest::{
    find_strategy, first_with_id, str_view, strategy_view, EndpointDir, EndpointManifest,
    EndpointSummary,
};
use crate::kernel::endpoint::mounts::{
    file_entry, file_key, file_mounted, first_free, handed_over, manifests_listed,
    preferred_transports, publish_outcome, remote_entry, seeded, summaries_listed, without_owner,
    EndpointEntry, EndpointRegistry, EntryModel, FileOffer, SeedEndpoint,
};
use crate::kernel::endpoint::subscribe_generate::{
    build, built, default_factories, default_map, SubscribeEndpoint, SubscribeEndpointFactory,
};
use crate::message::{
    clone_strategies, strategy_models, texts, CodecId, Delivery, EndpointClass, EndpointId, EndpointRef,
    EndpointState, EndpointStrategy, MediaKind, PickRule, RefModel, ReliabilityProfile,
    StrategyModel, SubscribeSpec, TargetKind, TransportPreference, Visibility, VisibilityModel,
};
use crate::order::{
    lemma_push_contains, lemma_same_images, lemma_same_members, lemma_text_le_total,
    lemma_text_le_transitive, sort, sorted_texts, text_le, text_leq, Ranked, Text,
};
use crate::table::Table;
use crate::text::{is_empty_text, same};

verus! {

/// A node, with the names of its endpoints; the endpoints themselves stand in a table of their
/// own.
#[derive(Debug)]
pub struct NodeEntry {
    pub node_id: String,
    pub name: String,
    /// Where its directory is reached (`host:port`); `local` for this node.
    pub addr: String,
    pub is_self: bool,
    pub endpoint_ids: Vec<EndpointId>,
}

/// What a node is, as a mathematical value.
#[verifier::ext_equal]
pub struct NodeEntryModel {
    pub node_id: Seq<char>,
    pub name: Seq<char>,
    pub addr: Seq<char>,
    pub is_self: bool,
    pub endpoint_ids: Seq<EndpointId>,
}

impl View for NodeEntry {
    type V = NodeEntryModel;

    open spec fn view(&self) -> NodeEntryModel {
        NodeEntryModel {
            node_id: self.node_id@,
            name: self.name@,
            addr: self.addr@,
            is_self: self.is_self,
            endpoint_ids: self.endpoint_ids@,
        }
    }
}

/// The models of the nodes.
pub open spec fn node_models(m: Map<Seq<char>, NodeEntry>) -> Map<Seq<char>, NodeEntryModel> {
    m.map_values(|n: NodeEntry| n@)
}

/// An endpoint as it is shown below its node.
#[derive(Debug)]
pub struct EndpointRegistration {
    pub endpoint_id: EndpointId,
    pub kind: MediaKind,
    pub name: String,
    pub target: TargetKind,
    pub transport_profile: ReliabilityProfile,
    /// The first one is the default.
    pub strategies: Vec<EndpointStrategy>,
}

/// What a shown endpoint is, as a mathematical value.
#[verifier::ext_equal]
pub struct RegistrationModel {
    pub endpoint_id: EndpointId,
    pub kind: MediaKind,
    pub name: Seq<char>,
    pub target: TargetKind,
    pub transport_profile: ReliabilityProfile,
    pub strategies: Seq<StrategyModel>,
}

impl View for EndpointRegistration {
    type V = RegistrationModel;

    open spec fn view(&self) -> RegistrationModel {
        RegistrationModel {
            endpoint_id: self.endpoint_id,
            kind: self.kind,
            name: self.name@,
            target: self.target,
            transport_profile: self.transport_profile,
            strategies: strategy_models(self.strategies@),
        }
    }
}

/// How an endpoint is shown; whether it is live is told from its profile and its pick rule.
pub open spec fn registration(e: EntryModel) -> RegistrationModel {
    RegistrationModel {
        endpoint_id: e.id,
        kind: e.id.kind,
        name: e.name,
        target: e.manifest().target(),
        transport_profile: e.transport_profile,
        strategies: e.strategies,
    }
}

fn registration_of(e: &EndpointEntry) -> (r: EndpointRegistration)
    requires
        e.wf(),
    ensures
        r@ == registration(e@),
{
    let m = e.manifest_of();
    EndpointRegistration {
        endpoint_id: e.id,
        kind: e.id.kind,
        name: e.name.clone(),
        target: m.target_kind(),
        transport_profile: e.transport_profile,
        strategies: clone_strategies(&e.strategies),
    }
}

/// A node as it is shown, with its endpoints.
pub struct NodeRegistration {
    pub node_id: String,
    pub name: String,
    pub addr: String,
    pub is_self: bool,
    pub endpoints: Table<EndpointId, EndpointRegistration>,
}

/// What a shown node is, as a mathematical value.
#[verifier::ext_equal]
pub struct NodeRegistrationModel {
    pub node_id: Seq<char>,
    pub name: Seq<char>,
    pub addr: Seq<char>,
    pub is_self: bool,
    pub endpoints: Map<EndpointId, RegistrationModel>,
}

impl View for NodeRegistration {
    type V = NodeRegistrationModel;

    open spec fn view(&self) -> NodeRegistrationModel {
        NodeRegistrationModel {
            node_id: self.node_id@,
            name: self.name@,
            addr: self.addr@,
            is_self: self.is_self,
            endpoints: self.endpoints@.map_values(|r: EndpointRegistration| r@),
        }
    }
}

/// How a node is shown.
pub open spec fn node_registration(
    mounts: Map<RefModel, EntryModel>,
    n: NodeEntryModel,
) -> NodeRegistrationModel {
    NodeRegistrationModel {
        node_id: n.node_id,
        name: n.name,
        addr: n.addr,
        is_self: n.is_self,
        endpoints: Map::new(
            |id: EndpointId| n.endpoint_ids.contains(id),
            |id: EndpointId| registration(mounts[RefModel { owner: n.node_id, id }]),
        ),
    }
}

impl Ranked for NodeRegistration {
    open spec fn le(&self, other: &Self) -> bool {
        text_le(self.node_id@, other.node_id@)
    }

    proof fn total(a: &Self, b: &Self) {
        lemma_text_le_total(a.node_id@, b.node_id@);
    }

    proof fn transitive(a: &Self, b: &Self, c: &Self) {
        lemma_text_le_transitive(a.node_id@, b.node_id@, c.node_id@);
    }

    fn leq(&self, other: &Self) -> (r: bool) {
        text_leq(self.node_id.as_str(), other.node_id.as_str())
    }
}

/// The nodes that are known, and their endpoints.
pub struct UnifiedRegistry {
    nodes: Table<String, NodeEntry>,
    endpoints: EndpointRegistry,
    self_node: String,
    self_name: String,
    subscribe_factories: Table<EndpointClass, SubscribeEndpointFactory>,
}

/// What a registry is, as a mathematical value.
#[verifier::ext_equal]
pub struct RegistryModel {
    pub nodes: Map<Seq<char>, NodeEntryModel>,
    /// The endpoints of all nodes.
    pub mounts: Map<RefModel, EntryModel>,
    /// The files behind file endpoints.
    pub files: Map<RefModel, FileModel>,
    /// Where the search for the number of the next file endpoint begins.
    pub next_file: u32,
    /// The id of this node; empty until it is known.
    pub self_node: Seq<char>,
    pub self_name: Seq<char>,
    /// What builds the receiving end of a subscription, by family.
    pub factories: Map<EndpointClass, SubscribeEndpointFactory>,
}

impl RegistryModel {
    /// A registry that knows this node only, under no id yet.
    pub open spec fn fresh() -> RegistryModel {
        RegistryModel {
            nodes: Map::<Seq<char>, NodeEntryModel>::empty().insert(
                ""@,
                NodeEntryModel {
                    node_id: ""@,
                    name: "本机"@,
                    addr: "local"@,
                    is_self: true,
                    endpoint_ids: Seq::empty(),
                },
            ),
            mounts: Map::<RefModel, EntryModel>::empty(),
            files: Map::<RefModel, FileModel>::empty(),
            next_file: 0,
            self_node: ""@,
            self_name: "本机"@,
            factories: default_map(),
        }
    }
}

impl View for UnifiedRegistry {
    type V = RegistryModel;

    closed spec fn view(&self) -> RegistryModel {
        RegistryModel {
            nodes: node_models(self.nodes@),
            mounts: self.endpoints@,
            files: self.endpoints.sources(),
            next_file: self.endpoints.next_file(),
            self_node: self.self_node@,
            self_name: self.self_name@,
            factories: self.subscribe_factories@,
        }
    }
}

impl RegistryModel {
    /// The key of an endpoint of this node.
    pub open spec fn own(self, id: EndpointId) -> RefModel {
        RefModel { owner: self.self_node, id }
    }

    /// Whether a node id means this node: its id, no id at all, or `local`.
    pub open spec fn means_self(self, node: Seq<char>) -> bool {
        node == self.self_node || node.len() == 0 || node == "local"@
    }

    /// The key of an endpoint of the given node.
    pub open spec fn key_of(self, node: Seq<char>, id: EndpointId) -> RefModel {
        RefModel {
            owner: if self.means_self(node) {
                self.self_node
            } else {
                node
            },
            id,
        }
    }

    /// This node's own entry comes first of all, every node stands under its id, only this node
    /// is marked as such, and every endpoint that a node names exists, as its own.
    pub open spec fn consistent(self) -> bool {
        &&& self.nodes.dom().contains(self.self_node)
        &&& self.nodes[self.self_node].name == self.self_name
        &&& forall|n: Seq<char>| #[trigger]
            self.nodes.dom().contains(n) ==> {
                &&& self.nodes[n].node_id == n
                &&& self.nodes[n].is_self == (n == self.self_node)
                &&& forall|i: int|
                    0 <= i < self.nodes[n].endpoint_ids.len() ==> self.mounts.dom().contains(
                        #[trigger] named_key(self.nodes[n], i),
                    )
            }
        &&& forall|k: RefModel| #[trigger]
            self.mounts.dom().contains(k) ==> self.mounts[k].id == k.id
                && self.mounts[k].strategies.len() > 0
        &&& forall|k: RefModel| #[trigger]
            self.files.dom().contains(k) ==> self.mounts.dom().contains(k) && k.owner
                == self.self_node
    }

    /// The strategy that a subscriber of an endpoint gets: on this node the one that is declared
    /// first, on others the one that was asked for, if there is one.
    pub open spec fn resolved(
        self,
        node: Seq<char>,
        id: EndpointId,
        wanted: Option<Seq<char>>,
    ) -> Option<StrategyModel> {
        let key = self.key_of(node, id);
        if !self.mounts.dom().contains(key) {
            None
        } else if self.means_self(node) || wanted is None {
            Some(self.mounts[key].strategies[0])
        } else {
            first_with_id(self.mounts[key].strategies, wanted)
        }
    }

    /// The registry after an endpoint of this node was named.
    pub open spec fn with_named(self, id: EndpointId) -> RegistryModel {
        let n = self.nodes[self.self_node];
        if n.endpoint_ids.contains(id) {
            self
        } else {
            RegistryModel {
                nodes: self.nodes.insert(
                    self.self_node,
                    NodeEntryModel { endpoint_ids: n.endpoint_ids.push(id), ..n },
                ),
                ..self
            }
        }
    }

    /// The registry after this node got its id: its entry and its endpoints stand under the new
    /// id.
    pub open spec fn renamed(self, node_id: Seq<char>, name: Seq<char>) -> RegistryModel {
        let entry = NodeEntryModel { node_id, name, ..self.nodes[self.self_node] };
        RegistryModel {
            nodes: self.nodes.remove(self.self_node).insert(node_id, entry),
            mounts: if node_id == self.self_node {
                self.mounts
            } else {
                handed_over(self.mounts, self.self_node, node_id)
            },
            files: if node_id == self.self_node {
                self.files
            } else {
                handed_over(self.files, self.self_node, node_id)
            },
            self_node: node_id,
            self_name: name,
            ..self
        }
    }

    /// The registry after the directory of another node was read: it has the endpoints of that
    /// directory and no others.
    pub open spec fn with_directory(
        self,
        node: Seq<char>,
        name: Seq<char>,
        addr: Seq<char>,
        dir: Seq<EndpointManifest>,
    ) -> RegistryModel {
        if node.len() == 0 || node == self.self_node {
            self
        } else {
            RegistryModel {
                nodes: self.nodes.insert(
                    node,
                    NodeEntryModel {
                        node_id: node,
                        name,
                        addr,
                        is_self: false,
                        endpoint_ids: manifest_ids(dir),
                    },
                ),
                mounts: with_remote(without_owner(self.mounts, node), node, dir),
                ..self
            }
        }
    }
}

impl RegistryModel {
    /// Whether there is a number left for one more file endpoint of this node.
    pub open spec fn file_id_left(self) -> bool {
        exists|n: u32|
            self.next_file <= n < u32::MAX && !self.mounts.dom().contains(
                #[trigger] file_key(self.self_node, n),
            )
    }
}

/// The outcome of taking the announcement of an endpoint of this node back.
pub open spec fn unpublish_outcome(
    pre: RegistryModel,
    post: RegistryModel,
    id: EndpointId,
    now: u64,
    r: Result<(), Error>,
) -> bool {
    let key = pre.own(id);
    if !pre.mounts.dom().contains(key) {
        &&& r matches Err(Error::Message(t)) && t@ == "端点不存在: "@ + id.text()
        &&& post == pre
    } else if !pre.mounts[key].published {
        &&& r matches Err(Error::Message(t)) && t@ == "端点未通告: "@ + id.text()
        &&& post == pre
    } else {
        &&& r is Ok
        &&& post == (RegistryModel {
            mounts: pre.mounts.insert(key, pre.mounts[key].withdrawn(now)),
            files: pre.files.remove(key),
            ..pre
        })
    }
}

/// The outcome of sharing a file of this node.
pub open spec fn file_outcome(
    pre: RegistryModel,
    post: RegistryModel,
    offer: &FileOffer,
    visibility: VisibilityModel,
    delivery: Delivery,
    now: u64,
    r: Result<EndpointManifest, Error>,
) -> bool {
    match offer.meta {
        Err(e) => {
            &&& r matches Err(Error::Message(t)) && t@ == "文件不可读 "@ + offer.path@ + ": "@ + e@
            &&& post == pre
        },
        Ok(m) => if !m.is_file {
            &&& r matches Err(Error::Message(t)) && t@ == "不是普通文件: "@ + offer.path@
            &&& post == pre
        } else {
            exists|n: u32|
                #[trigger] first_free(pre.mounts, pre.self_node, pre.next_file, n) && file_shared(
                    pre,
                    post,
                    offer,
                    n,
                    m.size,
                    visibility,
                    delivery,
                    now,
                    r,
                )
        },
    }
}

/// What sharing a regular file as the file endpoint with the number `n` does. A file that cannot
/// be read is added, but neither announced nor named.
pub open spec fn file_shared(
    pre: RegistryModel,
    post: RegistryModel,
    offer: &FileOffer,
    n: u32,
    size: u64,
    visibility: VisibilityModel,
    delivery: Delivery,
    now: u64,
    r: Result<EndpointManifest, Error>,
) -> bool {
    let key = file_key(pre.self_node, n);
    let e = file_entry(offer, key.id, now);
    let added = RegistryModel {
        mounts: pre.mounts.insert(key, e),
        files: pre.files.insert(
            key,
            FileModel { path: offer.path@, name: offer.shown_name(), size },
        ),
        next_file: (n + 1) as u32,
        ..pre
    };
    match offer.probe {
        Err(reason) => {
            &&& r matches Err(Error::Message(t)) && t@ == "端点不可挂载（"@ + reason@ + "）: "@
                + key.id.text()
            &&& post == added
        },
        Ok(()) => {
            let open = e.announced(
                visibility,
                delivery,
                preferred_transports(TargetKind::Determined),
                Seq::empty(),
                now,
            );
            &&& r matches Ok(m) && m@ == open.manifest()
            &&& post == (RegistryModel {
                mounts: pre.mounts.insert(key, open),
                ..added
            }).with_named(key.id)
        },
    }
}

proof fn lemma_mount_consistent(m: RegistryModel, k: RefModel, e: EntryModel)
    requires
        m.consistent(),
        e.id == k.id,
        e.strategies.len() > 0,
    ensures
        (RegistryModel { mounts: m.mounts.insert(k, e), ..m }).consistent(),
{
    let r = RegistryModel { mounts: m.mounts.insert(k, e), ..m };
    assert forall|n: Seq<char>| #[trigger] r.nodes.dom().contains(n) implies {
        &&& r.nodes[n].node_id == n
        &&& r.nodes[n].is_self == (n == r.self_node)
        &&& forall|i: int|
            0 <= i < r.nodes[n].endpoint_ids.len() ==> r.mounts.dom().contains(
                #[trigger] named_key(r.nodes[n], i),
            )
    } by {
        assert(m.nodes.dom().contains(n));
        assert forall|i: int| 0 <= i < r.nodes[n].endpoint_ids.len() implies r.mounts.dom().contains(
            #[trigger] named_key(r.nodes[n], i),
        ) by {
            assert(m.mounts.dom().contains(named_key(m.nodes[n], i)));
        }
    }
}

proof fn lemma_changed_consistent(m: RegistryModel, r: RegistryModel, k: RefModel)
    requires
        m.consistent(),
        r == (RegistryModel { mounts: r.mounts, files: r.files, ..m }),
        r.mounts.dom() == m.mounts.dom(),
        forall|x: RefModel| #[trigger]
            r.mounts.dom().contains(x) && x != k ==> r.mounts[x] == m.mounts[x],
        r.mounts.dom().contains(k) ==> r.mounts[k].id == k.id && r.mounts[k].strategies.len() > 0,
        r.files.dom().subset_of(m.files.dom()),
    ensures
        r.consistent(),
{
    assert forall|n: Seq<char>| #[trigger] r.nodes.dom().contains(n) implies {
        &&& r.nodes[n].node_id == n
        &&& r.nodes[n].is_self == (n == r.self_node)
        &&& forall|i: int|
            0 <= i < r.nodes[n].endpoint_ids.len() ==> r.mounts.dom().contains(
                #[trigger] named_key(r.nodes[n], i),
            )
    } by {
        assert(m.nodes.dom().contains(n));
        assert forall|i: int| 0 <= i < r.nodes[n].endpoint_ids.len() implies r.mounts.dom().contains(
            #[trigger] named_key(r.nodes[n], i),
        ) by {
            assert(m.mounts.dom().contains(named_key(m.nodes[n], i)));
        }
    }
}

proof fn lemma_renamed_consistent(m: RegistryModel, node_id: Seq<char>, name: Seq<char>)
    requires
        m.consistent(),
    ensures
        m.renamed(node_id, name).consistent(),
{
    let r = m.renamed(node_id, name);
    assert forall|n: Seq<char>| #[trigger] r.nodes.dom().contains(n) implies {
        &&& r.nodes[n].node_id == n
        &&& r.nodes[n].is_self == (n == r.self_node)
        &&& forall|i: int|
            0 <= i < r.nodes[n].endpoint_ids.len() ==> r.mounts.dom().contains(
                #[trigger] named_key(r.nodes[n], i),
            )
    } by {
        let o = if n == node_id {
            m.self_node
        } else {
            n
        };
        assert(m.nodes.dom().contains(o));
        assert forall|i: int| 0 <= i < r.nodes[n].endpoint_ids.len() implies r.mounts.dom().contains(
            #[trigger] named_key(r.nodes[n], i),
        ) by {
            assert(m.mounts.dom().contains(named_key(m.nodes[o], i)));
        }
    }
}

/// The key of the endpoint that a node names at position `i`.
pub open spec fn named_key(n: NodeEntryModel, i: int) -> RefModel {
    RefModel { owner: n.node_id, id: n.endpoint_ids[i] }
}

/// The names of the endpoints of a directory.
pub open spec fn manifest_ids(dir: Seq<EndpointManifest>) -> Seq<EndpointId> {
    dir.map_values(|m: EndpointManifest| m@.id)
}

/// The endpoints after those of a directory were added, each in place of the one that stood there.
pub open spec fn with_remote(
    mounts: Map<RefModel, EntryModel>,
    node: Seq<char>,
    dir: Seq<EndpointManifest>,
) -> Map<RefModel, EntryModel>
    decreases dir.len(),
{
    if dir.len() == 0 {
        mounts
    } else {
        with_remote(mounts, node, dir.drop_last()).insert(
            RefModel { owner: node, id: dir.last()@.id },
            remote_entry(dir.last()@),
        )
    }
}

proof fn lemma_with_remote(
    mounts: Map<RefModel, EntryModel>,
    node: Seq<char>,
    dir: Seq<EndpointManifest>,
)
    ensures
        forall|k: RefModel| #[trigger]
            with_remote(mounts, node, dir).dom().contains(k) <==> mounts.dom().contains(k) || (
            k.owner == node && manifest_ids(dir).contains(k.id)),
        forall|k: RefModel|
            k.owner != node && mounts.dom().contains(k) ==> (#[trigger] with_remote(
                mounts,
                node,
                dir,
            )[k]) == mounts[k],
        forall|k: RefModel| #[trigger]
            with_remote(mounts, node, dir).dom().contains(k) ==> {
                ||| with_remote(mounts, node, dir)[k] == mounts[k] && mounts.dom().contains(k)
                ||| exists|i: int|
                    0 <= i < dir.len() && k == (RefModel { owner: node, id: dir[i]@.id })
                        && with_remote(mounts, node, dir)[k] == remote_entry((#[trigger] dir[i])@)
            },
    decreases dir.len(),
{
    if dir.len() > 0 {
        let p = dir.drop_last();
        let last = dir.last();
        lemma_with_remote(mounts, node, p);
        assert(manifest_ids(dir) =~= manifest_ids(p).push(last@.id));
        let m = with_remote(mounts, node, dir);
        assert forall|k: RefModel| #[trigger] m.dom().contains(k) <==> mounts.dom().contains(k) || (
        k.owner == node && manifest_ids(dir).contains(k.id)) by {
            assert(with_remote(mounts, node, p).dom().contains(k) <==> mounts.dom().contains(k) || (
            k.owner == node && manifest_ids(p).contains(k.id)));
            if manifest_ids(p).contains(k.id) {
                let i = choose|i: int| 0 <= i < p.len() && manifest_ids(p)[i] == k.id;
                assert(manifest_ids(dir)[i] == k.id);
            }
            if k.id == last@.id {
                assert(manifest_ids(dir)[dir.len() - 1] == k.id);
            }
            if manifest_ids(dir).contains(k.id) && k.id != last@.id {
                let i = choose|i: int| 0 <= i < dir.len() && manifest_ids(dir)[i] == k.id;
                assert(manifest_ids(p)[i] == k.id);
            }
        }
        assert forall|k: RefModel| #[trigger] m.dom().contains(k) implies {
            ||| m[k] == mounts[k] && mounts.dom().contains(k)
            ||| exists|i: int|
                0 <= i < dir.len() && k == (RefModel { owner: node, id: dir[i]@.id }) && m[k]
                    == remote_entry((#[trigger] dir[i])@)
        } by {
            let lk = RefModel { owner: node, id: last@.id };
            if k == lk {
                assert(dir[dir.len() - 1] == last);
            } else {
                assert(with_remote(mounts, node, p).dom().contains(k));
                if !(m[k] == mounts[k] && mounts.dom().contains(k)) {
                    let i = choose|i: int|
                        0 <= i < p.len() && k == (RefModel { owner: node, id: p[i]@.id }) && m[k]
                            == remote_entry((#[trigger] p[i])@);
                    assert(dir[i] == p[i]);
                }
            }
        }
    }
}

fn has_id(v: &Vec<EndpointId>, id: EndpointId) -> (r: bool)
    ensures
        r == v@.contains(id),
{
    let mut i: usize = 0;
    while i < v.len()
        invariant
            i <= v@.len(),
            forall|j: int| 0 <= j < i ==> v@[j] != id,
        decreases v.len() - i,
    {
        if v[i] == id {
            assert(v@[i as int] == id);
            return true;
        }
        i += 1;
    }
    false
}

impl UnifiedRegistry {
    pub closed spec fn wf(&self) -> bool {
        &&& self.nodes.wf()
        &&& self.endpoints.wf()
        &&& self.subscribe_factories.wf()
        &&& self@.consistent()
    }

    /// What holds of every registry.
    pub proof fn lemma_consistent(&self)
        requires
            self.wf(),
        ensures
            self@.consistent(),
    {
    }

    /// A registry that knows this node only, under no id yet.
    pub fn new() -> (r: UnifiedRegistry)
        ensures
            r.wf(),
            r@ == RegistryModel::fresh(),
    {
        let mut nodes: Table<String, NodeEntry> = Table::new();
        let entry = NodeEntry {
            node_id: "".to_owned(),
            name: "本机".to_owned(),
            addr: "local".to_owned(),
            is_self: true,
            endpoint_ids: Vec::new(),
        };
        let ghost em = entry@;
        let _ = nodes.insert("".to_owned(), entry);
        let r = UnifiedRegistry {
            nodes,
            endpoints: EndpointRegistry::new(),
            self_node: "".to_owned(),
            self_name: "本机".to_owned(),
            subscribe_factories: default_factories(),
        };
        assert(r@.nodes =~= Map::<Seq<char>, NodeEntryModel>::empty().insert(""@, em));
        assert(em.endpoint_ids =~= Seq::empty());
        assert(r@ =~= RegistryModel::fresh());
        r
    }

    /// Gives this node its id and its name. Its entry and its endpoints move along, so that
    /// endpoints may be added before the id is known.
    pub fn set_self_node(&mut self, node_id: &str, name: &str)
        requires
            old(self).wf(),
        ensures
            final(self).wf(),
            final(self)@ == old(self)@.renamed(node_id@, name@),
    {
        let ghost m0 = self@;
        let old_id: String = self.self_node.clone();
        let moved: Option<NodeEntry> = self.nodes.remove(&old_id);
        let ghost rest = node_models(self.nodes@);
        assert(rest =~= m0.nodes.remove(old_id@));
        let mut entry: NodeEntry = match moved {
            Some(e) => e,
            None => NodeEntry {
                node_id: node_id.to_owned(),
                name: name.to_owned(),
                addr: "local".to_owned(),
                is_self: true,
                endpoint_ids: Vec::new(),
            },
        };
        assert(entry@ == m0.nodes[m0.self_node]);
        entry.node_id = node_id.to_owned();
        entry.name = name.to_owned();
        entry.is_self = true;
        let ghost em = entry@;
        assert(em =~= NodeEntryModel { node_id: node_id@, name: name@, ..m0.nodes[m0.self_node] });
        let _ = self.nodes.insert(node_id.to_owned(), entry);
        assert(node_models(self.nodes@) =~= rest.insert(node_id@, em));
        if !same(old_id.as_str(), node_id) {
            self.endpoints.hand_over(old_id.as_str(), node_id);
        }
        self.self_node = node_id.to_owned();
        self.self_name = name.to_owned();
        assert(self@ =~= m0.renamed(node_id@, name@));
        proof {
            lemma_renamed_consistent(m0, node_id@, name@);
        }
    }

    /// The id of this node.
    pub fn self_node_id(&self) -> (r: String)
        ensures
            r@ == self@.self_node,
    {
        self.self_node.clone()
    }

    fn name_own(&mut self, id: EndpointId)
        requires
            old(self).nodes.wf(),
            old(self).endpoints.wf(),
            old(self).subscribe_factories.wf(),
            old(self)@.consistent(),
            old(self)@.mounts.dom().contains(old(self)@.own(id)),
        ensures
            final(self).wf(),
            final(self)@ == old(self)@.with_named(id),
    {
        let ghost m0 = self@;
        let key: String = self.self_node.clone();
        match self.nodes.remove(&key) {
            None => {},
            Some(e) => {
                let mut entry: NodeEntry = e;
                let ghost before = entry@;
                if !has_id(&entry.endpoint_ids, id) {
                    entry.endpoint_ids.push(id);
                }
                let ghost after = entry@;
                let _ = self.nodes.insert(key, entry);
                proof {
                    assert(self@.nodes =~= m0.nodes.insert(m0.self_node, after));
                    if before.endpoint_ids.contains(id) {
                        assert(after =~= before);
                        assert(self@.nodes =~= m0.nodes);
                    } else {
                        assert(after =~= NodeEntryModel {
                            endpoint_ids: before.endpoint_ids.push(id),
                            ..before
                        });
                    }
                    assert(self@ =~= m0.with_named(id));
                    assert forall|n: Seq<char>| #[trigger] self@.nodes.dom().contains(n) implies {
                        &&& self@.nodes[n].node_id == n
                        &&& self@.nodes[n].is_self == (n == self@.self_node)
                        &&& forall|i: int|
                            0 <= i < self@.nodes[n].endpoint_ids.len() ==> self@.mounts.dom().contains(
                                #[trigger] named_key(self@.nodes[n], i),
                            )
                    } by {
                        assert(m0.nodes.dom().contains(n));
                        assert forall|i: int|
                            0 <= i < self@.nodes[n].endpoint_ids.len() implies self@.mounts.dom().contains(
                        #[trigger] named_key(self@.nodes[n], i)) by {
                            if i < m0.nodes[n].endpoint_ids.len() {
                                assert(named_key(self@.nodes[n], i) == named_key(m0.nodes[n], i));
                            }
                        }
                    }
                }
            },
        }
    }

    /// Adds an endpoint of this node, and names it in the entry of this node. One that is there
    /// already stays as it is, and the result is `false`.
    pub fn seed(&mut self, ep: SeedEndpoint, now: u64) -> (r: bool)
        requires
            old(self).wf(),
        ensures
            final(self).wf(),
            r == !old(self)@.mounts.dom().contains(old(self)@.own(ep.id)),
            final(self)@ == (if r {
                (RegistryModel {
                    mounts: old(self)@.mounts.insert(old(self)@.own(ep.id), seeded(ep, now)),
                    ..old(self)@
                }).with_named(ep.id)
            } else {
                old(self)@
            }),
    {
        let id: EndpointId = ep.id;
        let ghost m0 = self@;
        let ghost entry = seeded(ep, now);
        let owner: String = self.self_node.clone();
        if !self.endpoints.seed_with_owner(ep, owner.as_str(), now) {
            assert(self@ =~= m0);
            return false;
        }
        assert(self@ =~= RegistryModel { mounts: m0.mounts.insert(m0.own(id), entry), ..m0 });
        assert(self@.consistent()) by {
            lemma_mount_consistent(m0, m0.own(id), entry);
        }
        self.name_own(id);
        true
    }

    /// Whether this node has such an endpoint.
    pub fn has_endpoint(&self, id: EndpointId) -> (r: bool)
        requires
            self.wf(),
        ensures
            r == self@.mounts.dom().contains(self@.own(id)),
    {
        self.endpoints.contains(&EndpointRef::new(self.self_node.as_str(), id))
    }

    /// The kind of target of an endpoint of this node.
    pub fn target(&self, id: EndpointId) -> (r: Option<TargetKind>)
        requires
            self.wf(),
        ensures
            r == (if self@.mounts.dom().contains(self@.own(id)) {
                Some(self@.mounts[self@.own(id)].target)
            } else {
                None
            }),
    {
        self.endpoints.target(&EndpointRef::new(self.self_node.as_str(), id))
    }

    /// The endpoints of this node, in listing order.
    pub fn manifests(&self) -> (r: Vec<EndpointManifest>)
        requires
            self.wf(),
        ensures
            manifests_listed(self@.mounts, Some(self@.self_node), false, r@),
    {
        self.endpoints.manifests_of(Some(self.self_node.as_str()))
    }

    /// The announced endpoints of this node, in listing order.
    pub fn published_manifests(&self) -> (r: Vec<EndpointManifest>)
        requires
            self.wf(),
        ensures
            manifests_listed(self@.mounts, Some(self@.self_node), true, r@),
    {
        self.endpoints.published_manifests_of(Some(self.self_node.as_str()))
    }

    /// The short forms of the endpoints of this node, in listing order.
    pub fn summaries(&self) -> (r: Vec<EndpointSummary>)
        requires
            self.wf(),
        ensures
            summaries_listed(self@.mounts, Some(self@.self_node), r@),
    {
        self.endpoints.summaries_of(Some(self.self_node.as_str()))
    }

    /// What others are told about an endpoint of this node.
    pub fn manifest(&self, id: EndpointId) -> (r: Option<EndpointManifest>)
        requires
            self.wf(),
        ensures
            match r {
                Some(m) => self@.mounts.dom().contains(self@.own(id)) && m@
                    == self@.mounts[self@.own(id)].manifest(),
                None => !self@.mounts.dom().contains(self@.own(id)),
            },
    {
        self.endpoints.manifest(&EndpointRef::new(self.self_node.as_str(), id))
    }

    /// Announces an endpoint of this node.
    pub fn publish(
        &mut self,
        id: EndpointId,
        visibility: Visibility,
        delivery: Delivery,
        transports: Vec<TransportPreference>,
        codecs: Vec<CodecId>,
        now: u64,
    ) -> (r: Result<EndpointManifest, Error>)
        requires
            old(self).wf(),
        ensures
            final(self).wf(),
            final(self)@ == (RegistryModel { mounts: final(self)@.mounts, ..old(self)@ }),
            publish_outcome(
                old(self)@.mounts,
                final(self)@.mounts,
                old(self)@.own(id),
                visibility@,
                delivery,
                transports@,
                codecs@,
                now,
                r,
            ),
    {
        let ghost m0 = self@;
        let key = EndpointRef::new(self.self_node.as_str(), id);
        let r = self.endpoints.publish(&key, visibility, delivery, transports, codecs, now);
        assert(self@ =~= RegistryModel { mounts: self@.mounts, ..m0 });
        proof {
            assert(self@.mounts.dom() =~= m0.mounts.dom());
            lemma_changed_consistent(m0, self@, key@);
        }
        r
    }

    /// Takes the announcement of an endpoint of this node back.
    pub fn unpublish(&mut self, id: EndpointId, now: u64) -> (r: Result<(), Error>)
        requires
            old(self).wf(),
        ensures
            final(self).wf(),
            unpublish_outcome(old(self)@, final(self)@, id, now, r),
    {
        let ghost m0 = self@;
        let key = EndpointRef::new(self.self_node.as_str(), id);
        let r = self.endpoints.unpublish(&key, now);
        assert(self@ =~= RegistryModel { mounts: self@.mounts, files: self@.files, ..m0 });
        proof {
            if m0.mounts.dom().contains(key@) && m0.mounts[key@].published {
            } else {
                assert(self@ =~= m0);
            }
            assert(self@.mounts.dom() =~= m0.mounts.dom());
            lemma_changed_consistent(m0, self@, key@);
        }
        r
    }

    /// The first free number of a file endpoint of this node; `None` when there is none left.
    pub fn free_file_id(&self) -> (r: Option<u32>)
        requires
            self.wf(),
        ensures
            r is Some <==> self@.file_id_left(),
            r matches Some(n) ==> n < u32::MAX && first_free(
                self@.mounts,
                self@.self_node,
                self@.next_file,
                n,
            ),
    {
        let r = self.endpoints.free_file_id(self.self_node.as_str());
        proof {
            match r {
                Some(n) => {
                    assert(!self@.mounts.dom().contains(file_key(self@.self_node, n)));
                },
                None => {},
            }
        }
        r
    }

    /// Shares a file of this node as an endpoint of its own, and names it in the entry of this
    /// node.
    pub fn publish_file(
        &mut self,
        offer: &FileOffer,
        visibility: Visibility,
        delivery: Delivery,
        now: u64,
    ) -> (r: Result<EndpointManifest, Error>)
        requires
            old(self).wf(),
            old(self)@.file_id_left(),
        ensures
            final(self).wf(),
            file_outcome(old(self)@, final(self)@, offer, visibility@, delivery, now, r),
    {
        let ghost m0 = self@;
        let ghost e0 = self.endpoints;
        let owner: String = self.self_node.clone();
        let r = self.endpoints.publish_file(offer, visibility, delivery, owner.as_str(), now);
        let ghost m1 = self@;
        assert(m1 =~= RegistryModel {
            mounts: m1.mounts,
            files: m1.files,
            next_file: m1.next_file,
            ..m0
        });
        let ghost mut number: u32 = 0;
        let ghost size: u64 = if offer.meta is Ok {
            offer.meta->Ok_0.size
        } else {
            0
        };
        proof {
            self.endpoints.lemma_entries();
            if !offer.regular() {
                assert(m1 =~= m0);
            } else {
                let n = choose|n: u32|
                    #[trigger] first_free(e0@, owner@, e0.next_file(), n) && file_mounted(
                        &e0,
                        &self.endpoints,
                        offer,
                        file_key(owner@, n),
                        size,
                        visibility@,
                        delivery,
                        now,
                        r,
                    );
                number = n;
                assert(m1.mounts.dom() =~= m0.mounts.dom().insert(file_key(m0.self_node, n)));
                assert forall|x: Seq<char>| #[trigger] m1.nodes.dom().contains(x) implies {
                    &&& m1.nodes[x].node_id == x
                    &&& m1.nodes[x].is_self == (x == m1.self_node)
                    &&& forall|i: int|
                        0 <= i < m1.nodes[x].endpoint_ids.len() ==> m1.mounts.dom().contains(
                            #[trigger] named_key(m1.nodes[x], i),
                        )
                } by {
                    assert(m0.nodes.dom().contains(x));
                    assert forall|i: int|
                        0 <= i < m1.nodes[x].endpoint_ids.len() implies m1.mounts.dom().contains(
                    #[trigger] named_key(m1.nodes[x], i)) by {
                        assert(m0.mounts.dom().contains(named_key(m0.nodes[x], i)));
                    }
                }
                assert forall|k: RefModel| #[trigger]
                    m1.files.dom().contains(k) implies m1.mounts.dom().contains(k) && k.owner
                    == m1.self_node by {
                    if k != file_key(m0.self_node, n) {
                        assert(m0.files.dom().contains(k));
                    }
                }
                assert(m1.consistent());
            }
        }
        match &r {
            Ok(m) => {
                let id = EndpointId::new(m.kind, m.endpoint_id);
                self.name_own(id);
            },
            Err(_) => {},
        }
        proof {
            if offer.regular() {
                let key = file_key(m0.self_node, number);
                let e = file_entry(offer, key.id, now);
                let open = e.announced(
                    visibility@,
                    delivery,
                    preferred_transports(TargetKind::Determined),
                    Seq::empty(),
                    now,
                );
                if offer.probe is Ok {
                    assert(m0.mounts.insert(key, e).insert(key, open) =~= m0.mounts.insert(
                        key,
                        open,
                    ));
                }
                assert(file_shared(
                    m0,
                    self@,
                    offer,
                    number,
                    size,
                    visibility@,
                    delivery,
                    now,
                    r,
                ));
            }
        }
        r
    }
}

impl UnifiedRegistry {
    /// The file behind a file endpoint of this node.
    pub fn file_source(&self, id: EndpointId) -> (r: Option<&FileSource>)
        requires
            self.wf(),
        ensures
            match r {
                Some(f) => self@.files.dom().contains(self@.own(id)) && f@
                    == self@.files[self@.own(id)],
                None => !self@.files.dom().contains(self@.own(id)),
            },
    {
        self.endpoints.file_source(&EndpointRef::new(self.self_node.as_str(), id))
    }

    /// Sets the running state of an endpoint of this node; `false` when there is none.
    pub fn set_state(
        &mut self,
        id: EndpointId,
        state: EndpointState,
        subscribers: u32,
        now: u64,
    ) -> (r: bool)
        requires
            old(self).wf(),
        ensures
            final(self).wf(),
            r == old(self)@.mounts.dom().contains(old(self)@.own(id)),
            final(self)@ == old(self)@.with_state(id, state, subscribers, now),
    {
        let ghost m0 = self@;
        let key = EndpointRef::new(self.self_node.as_str(), id);
        let r = self.endpoints.set_state(&key, state, subscribers, now);
        proof {
            assert(self@ =~= m0.with_state(id, state, subscribers, now));
            assert(self@.mounts.dom() =~= m0.mounts.dom());
            lemma_changed_consistent(m0, self@, key@);
        }
        r
    }

    /// Has an endpoint of this node be active, with the subscribers that are known.
    pub fn activate(&mut self, id: EndpointId, now: u64)
        requires
            old(self).wf(),
        ensures
            final(self).wf(),
            final(self)@ == old(self)@.activated(id, now),
    {
        let subscribers: u32 = self.subscriber_count(id) as u32;
        let _ = self.set_state(id, EndpointState::Active, subscribers, now);
    }

    /// Whether a subscription can be handed to an endpoint of this node: whether there is one.
    pub fn on_subscribed(&self, id: EndpointId) -> (r: bool)
        requires
            self.wf(),
        ensures
            r == self@.mounts.dom().contains(self@.own(id)),
    {
        self.endpoints.on_subscribed(&EndpointRef::new(self.self_node.as_str(), id))
    }

    /// Notes that a node subscribes to an endpoint of this node.
    pub fn note_subscriber(&mut self, id: EndpointId, node: &str, now: u64)
        requires
            old(self).wf(),
            old(self)@.subscriber_left(id),
        ensures
            final(self).wf(),
            final(self)@ == old(self)@.with_subscriber(id, node@, now),
    {
        let ghost m0 = self@;
        let key = EndpointRef::new(self.self_node.as_str(), id);
        self.endpoints.note_subscriber(&key, node, now);
        proof {
            assert(self@ =~= m0.with_subscriber(id, node@, now));
            assert(self@.mounts.dom() =~= m0.mounts.dom());
            lemma_changed_consistent(m0, self@, key@);
        }
    }

    /// Notes that a node no longer subscribes to an endpoint of this node, and returns how many
    /// still do.
    pub fn note_unsubscriber(&mut self, id: EndpointId, node: &str, now: u64) -> (r: u32)
        requires
            old(self).wf(),
        ensures
            final(self).wf(),
            final(self)@ == old(self)@.without_subscriber(id, node@, now),
            r == old(self)@.subscribers_without(id, node@),
    {
        let ghost m0 = self@;
        let key = EndpointRef::new(self.self_node.as_str(), id);
        let r = self.endpoints.note_unsubscriber(&key, node, now);
        proof {
            assert(self@ =~= m0.without_subscriber(id, node@, now));
            assert(self@.mounts.dom() =~= m0.mounts.dom());
            lemma_changed_consistent(m0, self@, key@);
        }
        r
    }

    /// Forgets the subscribers of an endpoint of this node.
    pub fn clear_subscribers(&mut self, id: EndpointId)
        requires
            old(self).wf(),
        ensures
            final(self).wf(),
            final(self)@ == old(self)@.without_subscribers(id),
    {
        let ghost m0 = self@;
        let key = EndpointRef::new(self.self_node.as_str(), id);
        self.endpoints.clear_subscribers(&key);
        proof {
            assert(self@ =~= m0.without_subscribers(id));
            assert(self@.mounts.dom() =~= m0.mounts.dom());
            lemma_changed_consistent(m0, self@, key@);
        }
    }

    /// The nodes that subscribe to an endpoint of this node, each once, in no particular order.
    pub fn subscriber_nodes(&self, id: EndpointId) -> (r: Option<Vec<String>>)
        requires
            self.wf(),
        ensures
            match r {
                Some(v) => {
                    &&& self@.mounts.dom().contains(self@.own(id))
                    &&& texts(v@).no_duplicates()
                    &&& texts(v@).to_set() == self@.mounts[self@.own(id)].subscriber_nodes
                },
                None => !self@.mounts.dom().contains(self@.own(id)),
            },
    {
        self.endpoints.subscriber_nodes(&EndpointRef::new(self.self_node.as_str(), id))
    }

    /// How many nodes subscribe to an endpoint of this node; zero when there is no such endpoint.
    pub fn subscriber_count(&self, id: EndpointId) -> (r: usize)
        requires
            self.wf(),
        ensures
            self@.mounts.dom().contains(self@.own(id)) ==> r
                == self@.mounts[self@.own(id)].subscriber_nodes.len(),
            !self@.mounts.dom().contains(self@.own(id)) ==> r == 0,
            r <= u32::MAX,
    {
        match self.endpoints.endpoint_entry(&EndpointRef::new(self.self_node.as_str(), id)) {
            Some(e) => e.subscriber_nodes.len(),
            None => 0,
        }
    }

    /// The transports of a kind of target, the preferred one first.
    pub fn default_transports(target: TargetKind) -> (r: Vec<TransportPreference>)
        ensures
            r@ == preferred_transports(target),
    {
        EndpointRegistry::default_transports(target)
    }

    /// Takes over the directory of another node: its entry, and its endpoints. What it said before
    /// is replaced. A directory without a node id, or of this node, is ignored.
    pub fn register_remote_directory(&mut self, dir: &EndpointDir, addr: &str)
        requires
            old(self).wf(),
        ensures
            final(self).wf(),
            final(self)@ == old(self)@.with_directory(
                dir.node.node_id@,
                dir.node.node_name@,
                addr@,
                dir.endpoints@,
            ),
    {
        let ghost m0 = self@;
        let ghost all = dir.endpoints@;
        let ghost node = dir.node.node_id@;
        if is_empty_text(dir.node.node_id.as_str()) || same(
            dir.node.node_id.as_str(),
            self.self_node.as_str(),
        ) {
            return;
        }
        self.endpoints.forget(dir.node.node_id.as_str());
        let ghost rest = self.endpoints@;
        assert(self.endpoints.sources() =~= m0.files);
        let mut ids: Vec<EndpointId> = Vec::new();
        let mut i: usize = 0;
        assert(all.take(0) =~= Seq::<EndpointManifest>::empty());
        assert(manifest_ids(all.take(0)) =~= Seq::<EndpointId>::empty());
        while i < dir.endpoints.len()
            invariant
                all == dir.endpoints@,
                node == dir.node.node_id@,
                i <= all.len(),
                self.nodes == old(self).nodes,
                self.self_node == old(self).self_node,
                self.self_name == old(self).self_name,
                self.subscribe_factories == old(self).subscribe_factories,
                self.endpoints.wf(),
                self.endpoints.sources() == old(self).endpoints.sources(),
                self.endpoints.next_file() == old(self).endpoints.next_file(),
                self.endpoints@ == with_remote(rest, node, all.take(i as int)),
                ids@ == manifest_ids(all.take(i as int)),
            decreases dir.endpoints.len() - i,
        {
            let m: &EndpointManifest = &dir.endpoints[i];
            ids.push(EndpointId::new(m.kind, m.endpoint_id));
            self.endpoints.register_remote(m, dir.node.node_id.as_str());
            proof {
                let next = all.take(i as int + 1);
                assert(next.drop_last() =~= all.take(i as int));
                assert(next.last() == all[i as int]);
                assert(manifest_ids(next) =~= manifest_ids(all.take(i as int)).push(
                    all[i as int]@.id,
                ));
            }
            i += 1;
        }
        assert(all.take(all.len() as int) =~= all);
        let entry = NodeEntry {
            node_id: dir.node.node_id.clone(),
            name: dir.node.node_name.clone(),
            addr: addr.to_owned(),
            is_self: false,
            endpoint_ids: ids,
        };
        let ghost em = entry@;
        let _ = self.nodes.insert(dir.node.node_id.clone(), entry);
        proof {
            assert(node_models(self.nodes@) =~= m0.nodes.insert(node, em));
            assert(self@ =~= m0.with_directory(node, dir.node.node_name@, addr@, all));
            lemma_directory_consistent(m0, node, dir.node.node_name@, addr@, all);
        }
    }

    /// The endpoints that a node names, in the order in which it names them; none when the node is
    /// unknown.
    pub fn node_endpoints(&self, node_id: &str) -> (r: Vec<&EndpointEntry>)
        requires
            self.wf(),
        ensures
            !self@.nodes.dom().contains(node_id@) ==> r@.len() == 0,
            self@.nodes.dom().contains(node_id@) ==> {
                let n = self@.nodes[node_id@];
                &&& r@.len() == n.endpoint_ids.len()
                &&& forall|i: int|
                    0 <= i < r@.len() ==> (#[trigger] r@[i])@ == self@.mounts[named_key(n, i)]
            },
    {
        let mut r: Vec<&EndpointEntry> = Vec::new();
        match self.nodes.get(&node_id.to_owned()) {
            None => {},
            Some(n) => {
                let ghost nm = self@.nodes[node_id@];
                assert(nm == n@);
                let mut i: usize = 0;
                while i < n.endpoint_ids.len()
                    invariant
                        self.wf(),
                        self@.nodes.dom().contains(node_id@),
                        nm == self@.nodes[node_id@],
                        nm == n@,
                        i <= n.endpoint_ids@.len(),
                        r@.len() == i,
                        forall|j: int|
                            0 <= j < i ==> (#[trigger] r@[j])@ == self@.mounts[named_key(nm, j)],
                    decreases n.endpoint_ids.len() - i,
                {
                    let key = EndpointRef::new(n.node_id.as_str(), n.endpoint_ids[i]);
                    assert(key@ == named_key(nm, i as int));
                    match self.endpoints.endpoint_entry(&key) {
                        Some(e) => {
                            r.push(e);
                        },
                        None => {},
                    }
                    i += 1;
                }
            },
        }
        r
    }

    fn registration_of_node(&self, n: &NodeEntry) -> (r: NodeRegistration)
        requires
            self.wf(),
            self@.nodes.dom().contains(n.node_id@),
            self@.nodes[n.node_id@] == n@,
        ensures
            r.endpoints.wf(),
            r@ == node_registration(self@.mounts, n@),
    {
        let mut endpoints: Table<EndpointId, EndpointRegistration> = Table::new();
        let ghost f = |r: EndpointRegistration| r@;
        let mut i: usize = 0;
        while i < n.endpoint_ids.len()
            invariant
                self.wf(),
                self@.nodes.dom().contains(n.node_id@),
                self@.nodes[n.node_id@] == n@,
                i <= n.endpoint_ids@.len(),
                endpoints.wf(),
                forall|id: EndpointId| #[trigger]
                    endpoints@.dom().contains(id) <==> n.endpoint_ids@.take(i as int).contains(id),
                forall|id: EndpointId| #[trigger]
                    endpoints@.dom().contains(id) ==> endpoints@[id]@ == registration(
                        self@.mounts[RefModel { owner: n.node_id@, id }],
                    ),
            decreases n.endpoint_ids.len() - i,
        {
            let id: EndpointId = n.endpoint_ids[i];
            let key = EndpointRef::new(n.node_id.as_str(), id);
            assert(key@ == named_key(n@, i as int));
            match self.endpoints.endpoint_entry(&key) {
                Some(e) => {
                    let _ = endpoints.insert(id, registration_of(e));
                },
                None => {},
            }
            proof {
                let before = n.endpoint_ids@.take(i as int);
                let next = n.endpoint_ids@.take(i as int + 1);
                assert(next =~= before.push(id));
                assert forall|x: EndpointId| #[trigger]
                    endpoints@.dom().contains(x) <==> next.contains(x) by {
                    lemma_push_contains(before, id, x);
                }
            }
            i += 1;
        }
        let r = NodeRegistration {
            node_id: n.node_id.clone(),
            name: n.name.clone(),
            addr: n.addr.clone(),
            is_self: n.is_self,
            endpoints,
        };
        proof {
            assert(n.endpoint_ids@.take(n.endpoint_ids@.len() as int) =~= n.endpoint_ids@);
            assert(r@.endpoints =~= node_registration(self@.mounts, n@).endpoints);
        }
        r
    }

    /// All nodes with their endpoints, in the order of their ids.
    pub fn node_registrations(&self) -> (r: Vec<NodeRegistration>)
        requires
            self.wf(),
        ensures
            r@.len() == self@.nodes.dom().len(),
            forall|i: int|
                0 <= i < r@.len() ==> {
                    &&& self@.nodes.dom().contains((#[trigger] r@[i])@.node_id)
                    &&& r@[i]@ == node_registration(self@.mounts, self@.nodes[r@[i]@.node_id])
                },
            forall|i: int, j: int|
                #![trigger r@[i], r@[j]]
                0 <= i < j < r@.len() ==> text_le(r@[i]@.node_id, r@[j]@.node_id) && r@[i]@.node_id
                    != r@[j]@.node_id,
    {
        let mut v: Vec<NodeRegistration> = Vec::new();
        let n: usize = self.nodes.len();
        let ghost keys = self.nodes.keys();
        let mut i: usize = 0;
        proof {
            self.nodes.lemma_keys();
            assert(self@.nodes.dom() =~= self.nodes@.dom());
        }
        while i < n
            invariant
                self.wf(),
                n == keys.len(),
                keys == self.nodes.keys(),
                keys.no_duplicates(),
                i <= n,
                v@.len() == i,
                forall|j: int|
                    0 <= j < i ==> {
                        &&& (#[trigger] v@[j])@.node_id == keys[j]
                        &&& self@.nodes.dom().contains(keys[j])
                        &&& v@[j]@ == node_registration(self@.mounts, self@.nodes[keys[j]])
                    },
            decreases n - i,
        {
            let e: &NodeEntry = self.nodes.value_at(i);
            assert(self@.nodes.dom().contains(keys[i as int]));
            assert(self@.nodes[keys[i as int]] == e@);
            v.push(self.registration_of_node(e));
            i += 1;
        }
        let ghost unsorted = v@;
        let r = sort(v);
        proof {
            let f = |x: NodeRegistration| x@.node_id;
            assert(unsorted.map_values(f) =~= keys);
            lemma_same_images(unsorted, r@, f);
            lemma_same_members(unsorted, r@);
            assert forall|i: int| 0 <= i < r@.len() implies {
                &&& self@.nodes.dom().contains((#[trigger] r@[i])@.node_id)
                &&& r@[i]@ == node_registration(self@.mounts, self@.nodes[r@[i]@.node_id])
            } by {
                assert(r@.contains(r@[i]));
                assert(unsorted.contains(r@[i]));
                let j = choose|j: int| 0 <= j < unsorted.len() && unsorted[j] == r@[i];
                assert(unsorted[j]@.node_id == keys[j]);
            }
            assert forall|i: int, j: int|
                #![trigger r@[i], r@[j]]
                0 <= i < j < r@.len() implies text_le(r@[i]@.node_id, r@[j]@.node_id)
                && r@[i]@.node_id != r@[j]@.node_id by {
                assert(r@[i].le(&r@[j]));
                assert(r@.map_values(f)[i] != r@.map_values(f)[j]);
            }
        }
        r
    }

    /// The ids of all nodes, in order.
    pub fn node_ids(&self) -> (r: Vec<String>)
        requires
            self.wf(),
        ensures
            texts(r@).to_set() == self@.nodes.dom(),
            forall|i: int, j: int|
                #![trigger r@[i], r@[j]]
                0 <= i < j < r@.len() ==> text_le(r@[i]@, r@[j]@) && r@[i]@ != r@[j]@,
    {
        let mut v: Vec<Text> = Vec::new();
        let n: usize = self.nodes.len();
        let ghost keys = self.nodes.keys();
        let mut i: usize = 0;
        proof {
            self.nodes.lemma_keys();
            assert(self@.nodes.dom() =~= self.nodes@.dom());
        }
        while i < n
            invariant
                self.wf(),
                n == keys.len(),
                keys == self.nodes.keys(),
                i <= n,
                v@.len() == i,
                forall|j: int| 0 <= j < i ==> (#[trigger] v@[j]).text@ == keys[j],
            decreases n - i,
        {
            v.push(Text { text: self.nodes.key_at(i).clone() });
            i += 1;
        }
        let ghost f = |x: Text| x.text@;
        assert(v@.map_values(f) =~= keys);
        sorted_texts(v)
    }

    /// The strategy that a subscriber of an endpoint of some node gets.
    pub fn resolve_strategy(&self, node_id: &str, id: EndpointId, strategy_id: Option<&str>) -> (r:
        Option<EndpointStrategy>)
        requires
            self.wf(),
        ensures
            strategy_view(r) == self@.resolved(node_id@, id, str_view(strategy_id)),
    {
        let own: bool = self.is_self_node(node_id);
        let key = self.key_for(node_id, id);
        match self.endpoints.endpoint_entry(&key) {
            None => None,
            Some(e) => {
                if own {
                    return Some(e.strategies[0].clone());
                }
                match strategy_id {
                    Some(w) => find_strategy(&e.strategies, Some(w)),
                    None => Some(e.strategies[0].clone()),
                }
            },
        }
    }

    /// The entry of an endpoint of the given node.
    pub fn entry_of(&self, node_id: &str, id: EndpointId) -> (r: Option<&EndpointEntry>)
        requires
            self.wf(),
        ensures
            match r {
                Some(e) => self@.mounts.dom().contains(self@.key_of(node_id@, id)) && e@
                    == self@.mounts[self@.key_of(node_id@, id)] && e.wf(),
                None => !self@.mounts.dom().contains(self@.key_of(node_id@, id)),
            },
    {
        let key = self.key_for(node_id, id);
        self.endpoints.endpoint_entry(&key)
    }

    /// What a stream of an endpoint is named after, besides the endpoint: its profile and the pick
    /// rule of its default strategy.
    pub fn stream_profile(&self, node_id: &str, id: EndpointId) -> (r: Option<
        (ReliabilityProfile, PickRule),
    >)
        requires
            self.wf(),
        ensures
            r == (if self@.mounts.dom().contains(self@.key_of(node_id@, id)) {
                let e = self@.mounts[self@.key_of(node_id@, id)];
                Some((e.transport_profile, e.strategies[0].pick))
            } else {
                None
            }),
    {
        let key = self.key_for(node_id, id);
        match self.endpoints.endpoint_entry(&key) {
            None => None,
            Some(e) => {
                assert(e@.strategies[0] == e.strategies@[0]@);
                Some((e.transport_profile, e.strategies[0].pick))
            },
        }
    }

    /// Whether a node id means this node.
    pub fn is_self_node(&self, node_id: &str) -> (r: bool)
        ensures
            r == self@.means_self(node_id@),
    {
        same(node_id, self.self_node.as_str()) || is_empty_text(node_id) || same(node_id, "local")
    }

    /// The key of an endpoint of the given node.
    fn key_for(&self, node_id: &str, id: EndpointId) -> (r: EndpointRef)
        ensures
            r@ == self@.key_of(node_id@, id),
    {
        if self.is_self_node(node_id) {
            EndpointRef::new(self.self_node.as_str(), id)
        } else {
            EndpointRef::new(node_id, id)
        }
    }

    /// Builds the receiving end of a subscription by the family of the endpoint; `None` when
    /// nothing builds that family.
    pub fn generate_subscribe_endpoint(
        &self,
        spec: &SubscribeSpec,
        out_dir: Option<&str>,
        temp_dir: &str,
    ) -> (r: Option<SubscribeEndpoint>)
        requires
            self.wf(),
        ensures
            match r {
                Some(e) => {
                    &&& self@.factories.dom().contains(EndpointClass::of(spec.kind))
                    &&& e@ == built(
                        self@.factories[EndpointClass::of(spec.kind)],
                        spec.kind,
                        spec.endpoint(),
                        match str_view(out_dir) {
                            Some(d) => d,
                            None => temp_dir@,
                        },
                    )
                },
                None => !self@.factories.dom().contains(EndpointClass::of(spec.kind)),
            },
    {
        match self.subscribe_factories.get(&EndpointClass::from_kind(spec.kind)) {
            Some(f) => Some(build(*f, spec, out_dir, temp_dir)),
            None => None,
        }
    }

    /// Sets what builds the receiving ends of a family.
    pub fn register_subscribe_factory(
        &mut self,
        class: EndpointClass,
        factory: SubscribeEndpointFactory,
    )
        requires
            old(self).wf(),
        ensures
            final(self).wf(),
            final(self)@ == (RegistryModel {
                factories: old(self)@.factories.insert(class, factory),
                ..old(self)@
            }),
    {
        let _ = self.subscribe_factories.insert(class, factory);
        assert(self@ =~= RegistryModel {
            factories: old(self)@.factories.insert(class, factory),
            ..old(self)@
        });
    }
}

impl RegistryModel {
    /// The registry after the running state of an endpoint of this node was set.
    pub open spec fn with_state(
        self,
        id: EndpointId,
        state: EndpointState,
        subscribers: u32,
        now: u64,
    ) -> RegistryModel {
        if self.mounts.dom().contains(self.own(id)) {
            RegistryModel {
                mounts: self.mounts.insert(
                    self.own(id),
                    EntryModel { state, subscribers, updated_at: now, ..self.mounts[self.own(id)] },
                ),
                ..self
            }
        } else {
            self
        }
    }

    /// The registry after an endpoint of this node became active: its count is that of the nodes
    /// that subscribe.
    pub open spec fn activated(self, id: EndpointId, now: u64) -> RegistryModel {
        self.with_state(
            id,
            EndpointState::Active,
            self.mounts[self.own(id)].subscriber_nodes.len() as u32,
            now,
        )
    }

    /// Whether one more subscriber of an endpoint of this node can be counted.
    pub open spec fn subscriber_left(self, id: EndpointId) -> bool {
        self.mounts.dom().contains(self.own(id)) ==> self.mounts[self.own(
            id,
        )].subscriber_nodes.len() < u32::MAX
    }

    /// The registry after a node subscribed to an endpoint of this node.
    pub open spec fn with_subscriber(
        self,
        id: EndpointId,
        node: Seq<char>,
        now: u64,
    ) -> RegistryModel {
        if self.mounts.dom().contains(self.own(id)) {
            RegistryModel {
                mounts: self.mounts.insert(
                    self.own(id),
                    self.mounts[self.own(id)].with_subscriber(node, now),
                ),
                ..self
            }
        } else {
            self
        }
    }

    /// The registry after a node no longer subscribes to an endpoint of this node.
    pub open spec fn without_subscriber(
        self,
        id: EndpointId,
        node: Seq<char>,
        now: u64,
    ) -> RegistryModel {
        if self.mounts.dom().contains(self.own(id)) {
            RegistryModel {
                mounts: self.mounts.insert(
                    self.own(id),
                    self.mounts[self.own(id)].without_subscriber(node, now),
                ),
                ..self
            }
        } else {
            self
        }
    }

    /// How many nodes but the given one subscribe to an endpoint of this node.
    pub open spec fn subscribers_without(self, id: EndpointId, node: Seq<char>) -> nat {
        if self.mounts.dom().contains(self.own(id)) {
            self.mounts[self.own(id)].subscriber_nodes.remove(node).len()
        } else {
            0
        }
    }

    /// The registry after the subscribers of an endpoint of this node were forgotten.
    pub open spec fn without_subscribers(self, id: EndpointId) -> RegistryModel {
        if self.mounts.dom().contains(self.own(id)) {
            RegistryModel {
                mounts: self.mounts.insert(
                    self.own(id),
                    EntryModel {
                        subscribers: 0,
                        subscriber_nodes: Set::empty(),
                        ..self.mounts[self.own(id)]
                    },
                ),
                ..self
            }
        } else {
            self
        }
    }
}

proof fn lemma_directory_consistent(
    m: RegistryModel,
    node: Seq<char>,
    name: Seq<char>,
    addr: Seq<char>,
    dir: Seq<EndpointManifest>,
)
    requires
        m.consistent(),
        node.len() > 0,
        node != m.self_node,
    ensures
        m.with_directory(node, name, addr, dir).consistent(),
{
    let r = m.with_directory(node, name, addr, dir);
    let rest = without_owner(m.mounts, node);
    lemma_with_remote(rest, node, dir);
    assert forall|n: Seq<char>| #[trigger] r.nodes.dom().contains(n) implies {
        &&& r.nodes[n].node_id == n
        &&& r.nodes[n].is_self == (n == r.self_node)
        &&& forall|i: int|
            0 <= i < r.nodes[n].endpoint_ids.len() ==> r.mounts.dom().contains(
                #[trigger] named_key(r.nodes[n], i),
            )
    } by {
        if n != node {
            assert(m.nodes.dom().contains(n));
        }
        assert forall|i: int| 0 <= i < r.nodes[n].endpoint_ids.len() implies r.mounts.dom().contains(
            #[trigger] named_key(r.nodes[n], i),
        ) by {
            if n == node {
                assert(manifest_ids(dir).contains(manifest_ids(dir)[i]));
            } else {
                assert(m.mounts.dom().contains(named_key(m.nodes[n], i)));
            }
        }
    }
    assert forall|k: RefModel| #[trigger] r.mounts.dom().contains(k) implies r.mounts[k].id == k.id
        && r.mounts[k].strategies.len() > 0 by {
        if !(r.mounts[k] == rest[k] && rest.dom().contains(k)) {
            let i = choose|i: int|
                0 <= i < dir.len() && k == (RefModel { owner: node, id: dir[i]@.id })
                    && r.mounts[k] == remote_entry((#[trigger] dir[i])@);
            assert(r.mounts[k] == remote_entry(dir[i]@));
        }
    }
}

/// Reading the directory of one node changes nothing about the endpoints of any other.
pub proof fn law_directory_stays_with_its_node(
    m: RegistryModel,
    node: Seq<char>,
    name: Seq<char>,
    addr: Seq<char>,
    dir: Seq<EndpointManifest>,
    k: RefModel,
)
    requires
        k.owner != node,
    ensures
        m.with_directory(node, name, addr, dir).mounts.dom().contains(k) <==> m.mounts.dom().contains(
            k,
        ),
        m.mounts.dom().contains(k) ==> m.with_directory(node, name, addr, dir).mounts[k]
            == m.mounts[k],
{
    lemma_with_remote(without_owner(m.mounts, node), node, dir);
}

/// The last directory of a node is the last word about it: an endpoint that it does not list is not
/// there any more, and one that it lists is as the directory says.
pub proof fn law_directory_is_the_last_word(
    m: RegistryModel,
    node: Seq<char>,
    name: Seq<char>,
    addr: Seq<char>,
    dir: Seq<EndpointManifest>,
    id: EndpointId,
)
    requires
        !m.means_self(node),
    ensures
        ({
            let r = m.with_directory(node, name, addr, dir);
            match last_named(dir, id) {
                None => {
                    &&& !r.mounts.dom().contains(r.key_of(node, id))
                    &&& forall|wanted: Option<Seq<char>>| #[trigger]
                        r.resolved(node, id, wanted) is None
                },
                Some(told) => {
                    &&& r.mounts.dom().contains(r.key_of(node, id))
                    &&& r.mounts[r.key_of(node, id)] == remote_entry(told@)
                    &&& r.resolved(node, id, None) == Some(told@.effective_strategies()[0])
                },
            }
        }),
{
    let rest = without_owner(m.mounts, node);
    let k = RefModel { owner: node, id };
    lemma_with_remote(rest, node, dir);
    lemma_remote_value(rest, node, dir, k);
    lemma_last_named(dir, id);
}

proof fn lemma_last_named(dir: Seq<EndpointManifest>, id: EndpointId)
    ensures
        last_named(dir, id) is Some <==> manifest_ids(dir).contains(id),
    decreases dir.len(),
{
    if dir.len() > 0 {
        let p = dir.drop_last();
        lemma_last_named(p, id);
        if dir.last()@.id == id {
            assert(manifest_ids(dir)[dir.len() - 1] == id);
        }
        if manifest_ids(p).contains(id) {
            let i = choose|i: int| 0 <= i < p.len() && manifest_ids(p)[i] == id;
            assert(manifest_ids(dir)[i] == id);
        }
        if manifest_ids(dir).contains(id) && dir.last()@.id != id {
            let i = choose|i: int| 0 <= i < dir.len() && manifest_ids(dir)[i] == id;
            assert(manifest_ids(p)[i] == id);
        }
    }
}

/// Reading the same directory twice is the same as reading it once.
pub proof fn law_directory_idempotent(
    m: RegistryModel,
    node: Seq<char>,
    name: Seq<char>,
    addr: Seq<char>,
    dir: Seq<EndpointManifest>,
)
    ensures
        m.with_directory(node, name, addr, dir).with_directory(node, name, addr, dir)
            == m.with_directory(node, name, addr, dir),
{
    let once = m.with_directory(node, name, addr, dir);
    let twice = once.with_directory(node, name, addr, dir);
    if !(node.len() == 0 || node == m.self_node) {
        let rest = without_owner(m.mounts, node);
        lemma_with_remote(rest, node, dir);
        assert(without_owner(once.mounts, node) =~= rest);
        assert(twice.nodes =~= once.nodes);
        assert(twice =~= once);
    }
}

/// The last manifest of a directory with the given name, if there is one.
pub open spec fn last_named(dir: Seq<EndpointManifest>, id: EndpointId) -> Option<EndpointManifest>
    decreases dir.len(),
{
    if dir.len() == 0 {
        None
    } else if dir.last()@.id == id {
        Some(dir.last())
    } else {
        last_named(dir.drop_last(), id)
    }
}

proof fn lemma_remote_value(
    mounts: Map<RefModel, EntryModel>,
    node: Seq<char>,
    dir: Seq<EndpointManifest>,
    k: RefModel,
)
    ensures
        with_remote(mounts, node, dir)[k] == (if k.owner == node && last_named(dir, k.id) is Some {
            remote_entry(last_named(dir, k.id)->0@)
        } else {
            mounts[k]
        }),
    decreases dir.len(),
{
    if dir.len() > 0 {
        lemma_remote_value(mounts, node, dir.drop_last(), k);
    }
}

/// On this node every strategy id gives the strategy that is declared first.
pub proof fn law_own_strategy_is_the_declared_one(
    m: RegistryModel,
    id: EndpointId,
    wanted: Option<Seq<char>>,
)
    ensures
        m.resolved(m.self_node, id, wanted) == m.resolved(m.self_node, id, None),
        m.resolved(""@, id, wanted) == m.resolved(m.self_node, id, None),
        m.resolved("local"@, id, wanted) == m.resolved(m.self_node, id, None),
{
    reveal_strlit("");
}

/// Giving this node its id takes its endpoints along: each is found under the new id as it was
/// under the old one, with the file behind it.
pub proof fn law_identity_takes_endpoints_along(
    m: RegistryModel,
    node_id: Seq<char>,
    name: Seq<char>,
    id: EndpointId,
)
    requires
        m.mounts.dom().contains(m.own(id)),
    ensures
        m.renamed(node_id, name).mounts.dom().contains(m.renamed(node_id, name).own(id)),
        m.renamed(node_id, name).mounts[m.renamed(node_id, name).own(id)] == m.mounts[m.own(id)],
        m.files.dom().contains(m.own(id)) ==> m.renamed(node_id, name).files.dom().contains(
            m.renamed(node_id, name).own(id),
        ) && m.renamed(node_id, name).files[m.renamed(node_id, name).own(id)] == m.files[m.own(id)],
        m.renamed(node_id, name).nodes[node_id].endpoint_ids
            == m.nodes[m.self_node].endpoint_ids,
{
}

/// What others are told about an endpoint of this node, and the strategy that they get, stays what
/// it was when this node gets its id.
pub proof fn law_identity_changes_no_endpoint(
    m: RegistryModel,
    node_id: Seq<char>,
    name: Seq<char>,
    id: EndpointId,
    wanted: Option<Seq<char>>,
)
    requires
        m.mounts.dom().contains(m.own(id)),
    ensures
        ({
            let r = m.renamed(node_id, name);
            &&& r.mounts[r.own(id)].manifest() == m.mounts[m.own(id)].manifest()
            &&& r.resolved(node_id, id, wanted) == m.resolved(m.self_node, id, wanted)
        }),
{
}

/// Giving this node its id leaves all other nodes and their endpoints as they are.
pub proof fn law_identity_leaves_other_nodes(
    m: RegistryModel,
    node_id: Seq<char>,
    name: Seq<char>,
    node: Seq<char>,
    id: EndpointId,
)
    requires
        node != m.self_node,
        node != node_id,
    ensures
        ({
            let r = m.renamed(node_id, name);
            let k = RefModel { owner: node, id };
            &&& r.nodes.dom().contains(node) <==> m.nodes.dom().contains(node)
            &&& m.nodes.dom().contains(node) ==> r.nodes[node] == m.nodes[node]
            &&& r.mounts.dom().contains(k) <==> m.mounts.dom().contains(k)
            &&& m.mounts.dom().contains(k) ==> r.mounts[k] == m.mounts[k]
        }),
{
}

/// Giving this node its id a second time changes nothing.
pub proof fn law_identity_is_taken_once(m: RegistryModel, node_id: Seq<char>, name: Seq<char>)
    ensures
        m.renamed(node_id, name).renamed(node_id, name) == m.renamed(node_id, name),
{
    let once = m.renamed(node_id, name);
    assert(once.renamed(node_id, name).nodes =~= once.nodes);
    assert(once.renamed(node_id, name) =~= once);
}

/// An announcement that is taken back leaves an endpoint that can be announced again.
pub proof fn law_announce_withdraw_announce(
    e: EntryModel,
    visibility: VisibilityModel,
    delivery: Delivery,
    transports: Seq<TransportPreference>,
    codecs: Seq<CodecId>,
    then: u64,
    now: u64,
)
    ensures
        e.announced(visibility, delivery, transports, codecs, then).withdrawn(now) == e.withdrawn(
            now,
        ),
        !e.withdrawn(now).published,
        e.withdrawn(now).available == e.available,
{
}

/// A node that subscribes twice is counted once, and one that ends its subscription leaves the
/// count as it was before.
pub proof fn law_subscribers_are_counted_once(
    e: EntryModel,
    node: Seq<char>,
    then: u64,
    now: u64,
)
    requires
        e.subscriber_nodes.finite(),
        !e.subscriber_nodes.contains(node),
        e.subscriber_nodes.len() < u32::MAX,
    ensures
        e.with_subscriber(node, then).subscribers == e.subscriber_nodes.len() + 1,
        e.with_subscriber(node, then).with_subscriber(node, now).subscribers
            == e.subscriber_nodes.len() + 1,
        e.with_subscriber(node, then).without_subscriber(node, now).subscribers
            == e.subscriber_nodes.len(),
        e.with_subscriber(node, then).without_subscriber(node, now).subscriber_nodes
            == e.subscriber_nodes,
{
    assert(e.subscriber_nodes.insert(node).insert(node) =~= e.subscriber_nodes.insert(node));
    assert(e.subscriber_nodes.insert(node).remove(node) =~= e.subscriber_nodes);
}

/// The count of subscribers is the number of nodes that subscribe: so it starts, and so it stays
/// when a node subscribes or no longer does, when the endpoint is announced, withdrawn or left by
/// all, and when it becomes active.
pub proof fn law_count_is_the_number_of_subscribers(
    e: EntryModel,
    ep: SeedEndpoint,
    node: Seq<char>,
    visibility: VisibilityModel,
    delivery: Delivery,
    transports: Seq<TransportPreference>,
    codecs: Seq<CodecId>,
    now: u64,
)
    requires
        e.counted(),
        e.subscriber_nodes.len() < u32::MAX,
    ensures
        seeded(ep, now).counted(),
        e.with_subscriber(node, now).counted(),
        e.without_subscriber(node, now).counted(),
        e.announced(visibility, delivery, transports, codecs, now).counted(),
        e.withdrawn(now).counted(),
        e.withdrawn(now).subscriber_nodes == Set::<Seq<char>>::empty(),
        (EntryModel { subscribers: 0, subscriber_nodes: Set::empty(), ..e }).counted(),
        (EntryModel {
            state: EndpointState::Active,
            subscribers: e.subscriber_nodes.len() as u32,
            updated_at: now,
            ..e
        }).counted(),
{
}

/// A node goes by its own id, and by the name that every node has for itself; no other name means
/// it.
pub proof fn law_node_knows_itself(
    m: &UnifiedRegistry,
    own: String,
    name: &str,
    r: bool,
)
    requires
        call_ensures(UnifiedRegistry::self_node_id, (m,), own),
        call_ensures(UnifiedRegistry::is_self_node, (m, name), r),
    ensures
        name@ == own@ ==> r,
        name@ == "local"@ ==> r,
        name@.len() == 0 ==> r,
        name@ != own@ && name@ != "local"@ && name@.len() > 0 ==> !r,
{
}

/// Once the subscribers of an endpoint are cleared, none are counted, and others keep theirs.
pub proof fn law_cleared_endpoint_has_no_subscribers(
    m: &mut UnifiedRegistry,
    id: EndpointId,
    other: EndpointId,
    left: usize,
    before: usize,
    after: usize,
)
    requires
        call_ensures(UnifiedRegistry::clear_subscribers, (m, id), ()),
        call_ensures(UnifiedRegistry::subscriber_count, (&*final(m), id), left),
        other != id,
        call_ensures(UnifiedRegistry::subscriber_count, (&*old(m), other), before),
        call_ensures(UnifiedRegistry::subscriber_count, (&*final(m), other), after),
    ensures
        left == 0,
        after == before,
{
}

} // verus!
