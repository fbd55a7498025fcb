//! The nodes that take part, with their abilities and addresses.

use vstd::prelude::*;

use crate::message::{CodecId, MediaKind, ReliabilityProfile, TransportId};
use crate::order::{
    lemma_text_le_total, lemma_text_le_transitive, sort, sorted, text_le, text_leq, Ranked,
};
use crate::table::Table;

verus! {

/// What a node does.
#[derive(Debug, Clone, Copy, PartialEq, Eq, Structural)]
pub enum NodeRole {
    Sender,
    Viewer,
    Relay,
    Controller,
}

/// One way to reach a node.
#[derive(Debug)]
pub struct TransportAddr {
    pub transport: String,
    pub addr: String,
}

impl Clone for TransportAddr {
    fn clone(&self) -> (r: Self)
        ensures
            r == *self,
    {
        TransportAddr { transport: self.transport.clone(), addr: self.addr.clone() }
    }
}

/// Whether an ability produces or consumes media.
#[derive(Debug, Clone, Copy, PartialEq, Eq, Structural)]
pub enum CapabilityKind {
    Source,
    Sink,
}

/// One ability of a node.
#[derive(Debug)]
pub struct CapabilityDescriptor {
    pub kind: CapabilityKind,
    pub media: Vec<MediaKind>,
    pub codecs: Vec<CodecId>,
    pub transports: Vec<TransportId>,
    pub max_width: Option<u32>,
    pub max_height: Option<u32>,
    pub preferred_profile: ReliabilityProfile,
}

/// What an ability is, as a mathematical value.
#[verifier::ext_equal]
pub struct CapabilityModel {
    pub kind: CapabilityKind,
    pub media: Seq<MediaKind>,
    pub codecs: Seq<CodecId>,
    pub transports: Seq<TransportId>,
    pub max_width: Option<u32>,
    pub max_height: Option<u32>,
    pub preferred_profile: ReliabilityProfile,
}

impl View for CapabilityDescriptor {
    type V = CapabilityModel;

    open spec fn view(&self) -> CapabilityModel {
        CapabilityModel {
            kind: self.kind,
            media: self.media@,
            codecs: self.codecs@,
            transports: self.transports@,
            max_width: self.max_width,
            max_height: self.max_height,
            preferred_profile: self.preferred_profile,
        }
    }
}

fn same_media(a: &Vec<MediaKind>, b: &Vec<MediaKind>) -> (r: bool)
    ensures
        r == (a@ == b@),
{
    if a.len() != b.len() {
        return false;
    }
    let mut i: usize = 0;
    while i < a.len()
        invariant
            a@.len() == b@.len(),
            i <= a@.len(),
            forall|j: int| 0 <= j < i ==> a@[j] == b@[j],
        decreases a.len() - i,
    {
        if a[i] != b[i] {
            return false;
        }
        i += 1;
    }
    assert(a@ =~= b@);
    true
}

impl CapabilityDescriptor {
    /// An ability of which nothing is known.
    pub fn unknown() -> (r: CapabilityDescriptor)
        ensures
            r@ == (CapabilityModel {
                kind: CapabilityKind::Source,
                media: Seq::empty(),
                codecs: Seq::empty(),
                transports: Seq::empty(),
                max_width: None,
                max_height: None,
                preferred_profile: ReliabilityProfile::Lossy,
            }),
    {
        CapabilityDescriptor {
            kind: CapabilityKind::Source,
            media: Vec::new(),
            codecs: Vec::new(),
            transports: Vec::new(),
            max_width: None,
            max_height: None,
            preferred_profile: ReliabilityProfile::Lossy,
        }
    }
}

impl Clone for CapabilityDescriptor {
    fn clone(&self) -> (r: Self)
        ensures
            r@ == self@,
    {
        let r = CapabilityDescriptor {
            kind: self.kind,
            media: self.media.clone(),
            codecs: self.codecs.clone(),
            transports: self.transports.clone(),
            max_width: self.max_width,
            max_height: self.max_height,
            preferred_profile: self.preferred_profile,
        };
        assert(r@ =~= self@);
        r
    }
}

/// The models of a list of abilities.
pub open spec fn cap_models(v: Seq<CapabilityDescriptor>) -> Seq<CapabilityModel> {
    v.map_values(|c: CapabilityDescriptor| c@)
}

/// A node that takes part.
#[derive(Debug)]
pub struct NodeInfo {
    pub node_id: String,
    pub name: String,
    pub roles: Vec<NodeRole>,
    pub caps: Vec<CapabilityDescriptor>,
    pub addrs: Vec<TransportAddr>,
}

/// What a node is, as a mathematical value.
#[verifier::ext_equal]
pub struct NodeModel {
    pub node_id: Seq<char>,
    pub name: Seq<char>,
    pub roles: Seq<NodeRole>,
    pub caps: Seq<CapabilityModel>,
    pub addrs: Seq<TransportAddr>,
}

impl View for NodeInfo {
    type V = NodeModel;

    open spec fn view(&self) -> NodeModel {
        NodeModel {
            node_id: self.node_id@,
            name: self.name@,
            roles: self.roles@,
            caps: cap_models(self.caps@),
            addrs: self.addrs@,
        }
    }
}

impl Clone for NodeInfo {
    fn clone(&self) -> (r: Self)
        ensures
            r@ == self@,
    {
        let mut caps: Vec<CapabilityDescriptor> = Vec::new();
        let mut i: usize = 0;
        while i < self.caps.len()
            invariant
                i <= self.caps@.len(),
                cap_models(caps@) == cap_models(self.caps@).take(i as int),
            decreases self.caps.len() - i,
        {
            let ghost done = caps@;
            let c: CapabilityDescriptor = self.caps[i].clone();
            caps.push(c);
            assert(cap_models(caps@) =~= cap_models(done).push(c@));
            assert(cap_models(self.caps@).take(i + 1) =~= cap_models(self.caps@).take(i as int).push(
                c@,
            ));
            i += 1;
        }
        let r = NodeInfo {
            node_id: self.node_id.clone(),
            name: self.name.clone(),
            roles: self.roles.clone(),
            caps,
            addrs: self.addrs.clone(),
        };
        assert(r@ =~= self@);
        r
    }
}

impl Ranked for NodeInfo {
    open spec fn le(&self, other: &Self) -> bool {
        text_le(self.node_id@, other.node_id@)
    }

    proof fn total(a: &Self, b: &Self) {
        lemma_text_le_total(a.node_id@, b.node_id@);
    }

    proof fn transitive(a: &Self, b: &Self, c: &Self) {
        lemma_text_le_transitive(a.node_id@, b.node_id@, c.node_id@);
    }

    fn leq(&self, other: &Self) -> (r: bool) {
        text_leq(self.node_id.as_str(), other.node_id.as_str())
    }
}

/// The nodes, by id.
pub struct NodeGraph {
    nodes: Table<String, NodeInfo>,
}

/// The models of the values of a map.
pub open spec fn node_models(m: Map<Seq<char>, NodeInfo>) -> Map<Seq<char>, NodeModel> {
    m.map_values(|n: NodeInfo| n@)
}

impl View for NodeGraph {
    type V = Map<Seq<char>, NodeModel>;

    closed spec fn view(&self) -> Map<Seq<char>, NodeModel> {
        node_models(self.nodes@)
    }
}

impl Default for NodeGraph {
    fn default() -> (r: Self)
        ensures
            r.wf(),
            r@ == Map::<Seq<char>, NodeModel>::empty(),
    {
        let r = NodeGraph { nodes: Table::new() };
        assert(r@ =~= Map::<Seq<char>, NodeModel>::empty());
        r
    }
}

/// Whether a node has an ability on the given media.
pub open spec fn handles(n: NodeModel, media: Seq<MediaKind>) -> bool {
    exists|i: int| 0 <= i < n.caps.len() && (#[trigger] n.caps[i]).media == media
}

/// A node with one more ability, unless it has one on the same media already.
pub open spec fn with_capability(n: NodeModel, cap: CapabilityModel) -> NodeModel {
    if handles(n, cap.media) {
        n
    } else {
        NodeModel { caps: n.caps.push(cap), ..n }
    }
}

impl NodeGraph {
    /// Every node stands under its own id.
    pub closed spec fn wf(&self) -> bool {
        &&& self.nodes.wf()
        &&& forall|k: Seq<char>| #[trigger] self.nodes@.dom().contains(k) ==> self.nodes@[k].node_id@ == k
    }

    /// Every node stands under its own id.
    pub proof fn lemma_ids(&self)
        requires
            self.wf(),
        ensures
            forall|k: Seq<char>| #[trigger] self@.dom().contains(k) ==> self@[k].node_id == k,
            self@.dom().finite(),
    {
        self.nodes.lemma_keys();
        assert(self@.dom() =~= self.nodes@.dom());
    }

    /// Adds a node or replaces the one with the same id.
    pub fn upsert_node(&mut self, node: NodeInfo)
        requires
            old(self).wf(),
        ensures
            final(self).wf(),
            final(self)@ == old(self)@.insert(node.node_id@, node@),
    {
        let id: String = node.node_id.clone();
        let _ = self.nodes.insert(id, node);
        assert(self@ =~= old(self)@.insert(node.node_id@, node@));
    }

    /// Adds an ability to a known node, unless the node has one on the same media already.
    pub fn register_capability(&mut self, node_id: &str, desc: CapabilityDescriptor)
        requires
            old(self).wf(),
        ensures
            final(self).wf(),
            !old(self)@.dom().contains(node_id@) ==> final(self)@ == old(self)@,
            old(self)@.dom().contains(node_id@) ==> final(self)@ == old(self)@.insert(
                node_id@,
                with_capability(old(self)@[node_id@], desc@),
            ),
    {
        let key: String = node_id.to_owned();
        match self.nodes.remove(&key) {
            None => {
                assert(self@ =~= old(self)@);
            },
            Some(mut node) => {
                let ghost n0 = node@;
                let mut found: bool = false;
                let mut i: usize = 0;
                while i < node.caps.len()
                    invariant
                        i <= node.caps@.len(),
                        n0 == node@,
                        found <==> exists|j: int| 0 <= j < i && (#[trigger] n0.caps[j]).media
                            == desc@.media,
                    decreases node.caps.len() - i,
                {
                    let eq: bool = same_media(&node.caps[i].media, &desc.media);
                    assert(n0.caps[i as int].media == node.caps@[i as int].media@);
                    if eq {
                        found = true;
                    }
                    i += 1;
                }
                assert(found <==> handles(n0, desc@.media));
                if !found {
                    node.caps.push(desc);
                    assert(node@ =~= with_capability(n0, desc@));
                }
                let _ = self.nodes.insert(key, node);
                assert(self@ =~= old(self)@.insert(node_id@, with_capability(n0, desc@)));
            },
        }
    }

    /// A copy of the node with the given id.
    pub fn node(&self, node_id: &str) -> (r: Option<NodeInfo>)
        requires
            self.wf(),
        ensures
            match r {
                Some(n) => self@.dom().contains(node_id@) && n@ == self@[node_id@],
                None => !self@.dom().contains(node_id@),
            },
    {
        match self.nodes.get(&node_id.to_owned()) {
            Some(n) => Some(n.clone()),
            None => None,
        }
    }

    /// All nodes, in the order of their ids.
    pub fn nodes(&self) -> (r: Vec<NodeInfo>)
        requires
            self.wf(),
        ensures
            sorted(r@),
            r@.len() == self@.dom().len(),
            forall|k: Seq<char>| #[trigger] self@.dom().contains(k) ==> exists|i: int|
                0 <= i < r@.len() && #[trigger] r@[i]@ == self@[k],
            forall|i: int|
                0 <= i < r@.len() ==> {
                    let n = #[trigger] r@[i];
                    self@.dom().contains(n.node_id@) && n@ == self@[n.node_id@]
                },
    {
        let mut v: Vec<NodeInfo> = Vec::new();
        let mut i: usize = 0;
        let count: usize = self.nodes.len();
        let ghost keys = self.nodes.keys();
        proof {
            self.nodes.lemma_keys();
            self.lemma_ids();
            assert(self@.dom() =~= self.nodes@.dom());
        }
        while i < count
            invariant
                self.wf(),
                keys == self.nodes.keys(),
                count == keys.len(),
                i <= count,
                v@.len() == i,
                forall|j: int| 0 <= j < i ==> (#[trigger] v@[j])@ == self@[keys[j]] && self@.dom().contains(keys[j]),
            decreases count - i,
        {
            let n: NodeInfo = self.nodes.value_at(i).clone();
            assert(n@ == self@[keys[i as int]]);
            v.push(n);
            i += 1;
        }
        let r = sort(v);
        proof {
            crate::order::lemma_same_members(v@, r@);
            assert forall|k: Seq<char>| #[trigger] self@.dom().contains(k) implies exists|i: int|
                0 <= i < r@.len() && #[trigger] r@[i]@ == self@[k] by {
                assert(keys.contains(k));
                let j = choose|j: int| 0 <= j < keys.len() && keys[j] == k;
                assert(v@.contains(v@[j]));
                let i = choose|i: int| 0 <= i < r@.len() && r@[i] == v@[j];
                assert(r@[i]@ == self@[k]);
            }
            assert forall|i: int| 0 <= i < r@.len() implies {
                let n = #[trigger] r@[i];
                self@.dom().contains(n.node_id@) && n@ == self@[n.node_id@]
            } by {
                assert(r@.contains(r@[i]));
                let j = choose|j: int| 0 <= j < v@.len() && v@[j] == r@[i];
                assert(self@[keys[j]].node_id == keys[j]);
            }
        }
        r
    }
}

/// Abilities on the same media count once: the first one that was registered stays.
pub proof fn law_capability_registered_once(n: NodeModel, first: CapabilityModel, second: CapabilityModel)
    requires
        first.media == second.media,
    ensures
        with_capability(with_capability(n, first), second) == with_capability(n, first),
        handles(with_capability(n, first), first.media),
{
    if !handles(n, first.media) {
        let m = with_capability(n, first);
        assert(m.caps[n.caps.len() as int].media == second.media);
    }
}

/// A node that was added is known as it was given, and listed.
pub proof fn law_added_node_is_known(
    g: &mut NodeGraph,
    node: NodeInfo,
    id: &str,
    got: Option<NodeInfo>,
    all: Vec<NodeInfo>,
) -> (i: int)
    requires
        call_ensures(NodeGraph::upsert_node, (g, node), ()),
        id@ == node.node_id@,
        call_ensures(NodeGraph::node, (&*final(g), id), got),
        call_ensures(NodeGraph::nodes, (&*final(g),), all),
    ensures
        got matches Some(n) && n@ == node@,
        0 <= i < all@.len(),
        all@[i]@ == node@,
{
    assert(final(g)@.dom().contains(id@));
    assert(final(g)@[id@] == node@);
    choose|i: int| 0 <= i < all@.len() && #[trigger] all@[i]@ == node@
}

/// An ability that a node is said to have is known of it afterwards, unless it has one on the same
/// media already; then nothing changes. Unknown nodes get none.
pub proof fn law_ability_is_known(
    g: &mut NodeGraph,
    id: &str,
    desc: CapabilityDescriptor,
    before: Option<NodeInfo>,
    after: Option<NodeInfo>,
)
    requires
        call_ensures(NodeGraph::register_capability, (g, id, desc), ()),
        call_ensures(NodeGraph::node, (&*old(g), id), before),
        call_ensures(NodeGraph::node, (&*final(g), id), after),
    ensures
        before is None ==> after is None,
        before matches Some(b) ==> (after matches Some(a) && a.name@ == b.name@ && ({
            let had = exists|i: int|
                0 <= i < b.caps@.len() && (#[trigger] b.caps@[i]).media@ == desc.media@;
            &&& had ==> a@ == b@
            &&& !had ==> a.caps@.len() == b.caps@.len() + 1 && a.caps@.last()@ == desc@
        })),
{
    if before is Some {
        let b = before->0;
        let a = after->0;
        assert(cap_models(a.caps@).len() == a.caps@.len());
        assert(cap_models(b.caps@).len() == b.caps@.len());
        if exists|i: int| 0 <= i < b.caps@.len() && (#[trigger] b.caps@[i]).media@ == desc.media@ {
            let i = choose|i: int|
                0 <= i < b.caps@.len() && (#[trigger] b.caps@[i]).media@ == desc.media@;
            assert(b@.caps[i].media == desc@.media);
            assert(handles(b@, desc@.media));
        } else {
            if handles(b@, desc@.media) {
                let i = choose|i: int|
                    0 <= i < b@.caps.len() && (#[trigger] b@.caps[i]).media == desc@.media;
                assert(b.caps@[i].media@ == desc.media@);
            }
            assert(a@.caps == b@.caps.push(desc@));
            assert(cap_models(a.caps@)[a.caps@.len() - 1] == a.caps@.last()@);
        }
    }
}

} // verus!
