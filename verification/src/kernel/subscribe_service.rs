//! Subscribing to endpoints of this and other nodes.

use vstd::prelude::*;

use crate::channel::message::opt_view;
use crate::error::Error;
use crate::kernel::auth::AuthPolicy;
use crate::kernel::data_plane::DataPlaneBackend;
use crate::kernel::endpoint::manifest::str_view;
use crate::kernel::endpoint::mounts::EndpointEntry;
use crate::kernel::endpoint::registry::UnifiedRegistry;
use crate::kernel::receive::{link_stopped, loopback_base, MAIN_RECEIVE_LINK};
use crate::kernel::{Kernel, KernelModel, LinkMetaModel, ReceiveLinkMeta};
use crate::message::{
    EndpointId, EndpointStrategy, MediaKind, SerializeRule, SubscribeSpec,
};
use crate::order::{lemma_reached, sort, Ranked};
use crate::pick::load::loader_for;
use crate::receiver::ReceiveStats;
use crate::stream_id::{derive_stream_id, stream_id_of};
use crate::text::{
    begins_with, dec, decimal, join2, join3, lemma_parse_number, parse_number, parsed_number, same,
    skip_chars, starts_with,
};

verus! {

/// The text of a link number: the first link is the one of a program that receives one stream at a
/// time.
pub open spec fn link_text(link: u32) -> Seq<char> {
    if link == 0 {
        MAIN_RECEIVE_LINK@
    } else {
        "link-"@ + dec(link as nat)
    }
}

/// The text of a link number.
pub fn link_id_text(link: u32) -> (r: String)
    ensures
        r@ == link_text(link),
{
    if link == 0 {
        MAIN_RECEIVE_LINK.to_owned()
    } else {
        join2("link-", decimal(link as u64).as_str())
    }
}

/// The link number that a text stands for; a text that is no link stands for the first one.
pub open spec fn link_number(text: Seq<char>) -> u32 {
    if begins_with(text, "link-"@) {
        match parsed_number(text.skip(5), u32::MAX as nat) {
            Some(n) => n as u32,
            None => 0,
        }
    } else {
        0
    }
}

/// The link number that a text stands for.
pub fn link_id_of(text: &str) -> (r: u32)
    ensures
        r == link_number(text@),
{
    proof {
        reveal_strlit("link-");
    }
    if starts_with(text, "link-") {
        let rest: String = skip_chars(text, 5);
        match parse_number(rest.as_str(), 4294967295) {
            Some(n) => n as u32,
            None => 0,
        }
    } else {
        0
    }
}

/// The number of a link can be read back from its text.
pub proof fn law_link_text_round_trip(link: u32)
    ensures
        link_number(link_text(link)) == link,
{
    reveal_strlit("link-");
    reveal_strlit("main");
    if link == 0 {
        assert(!begins_with("main"@, "link-"@));
    } else {
        let t = link_text(link);
        assert(t.subrange(0, 5) =~= "link-"@);
        assert(t.skip(5) =~= dec(link as nat));
        lemma_parse_number(link as nat, u32::MAX as nat);
    }
}

/// A link of this node as it is shown.
#[derive(Debug)]
pub struct SubscribeLink {
    pub link_id: u32,
    pub node_id: String,
    pub endpoint_id: EndpointId,
    pub stream_id: String,
    pub running: bool,
}

/// What is shown of a link, as a mathematical value.
pub struct LinkModel {
    pub link_id: u32,
    pub node_id: Seq<char>,
    pub endpoint_id: EndpointId,
    pub stream_id: Seq<char>,
    pub running: bool,
}

impl View for SubscribeLink {
    type V = LinkModel;

    open spec fn view(&self) -> LinkModel {
        LinkModel {
            link_id: self.link_id,
            node_id: self.node_id@,
            endpoint_id: self.endpoint_id,
            stream_id: self.stream_id@,
            running: self.running,
        }
    }
}

impl Ranked for SubscribeLink {
    open spec fn le(&self, other: &Self) -> bool {
        self.link_id <= other.link_id
    }

    proof fn total(a: &Self, b: &Self) {
    }

    proof fn transitive(a: &Self, b: &Self, c: &Self) {
    }

    fn leq(&self, other: &Self) -> (r: bool) {
        self.link_id <= other.link_id
    }
}

/// What is shown of a link: what is not known about it is left blank.
pub open spec fn shown_link<P: AuthPolicy, D: DataPlaneBackend>(
    k: KernelModel<P, D>,
    key: Seq<char>,
) -> LinkModel {
    let meta = if k.links.dom().contains(key) {
        k.links[key]
    } else {
        LinkMetaModel { node_id: ""@, endpoint_id: None, stream_id: None }
    };
    LinkModel {
        link_id: link_number(key),
        node_id: meta.node_id,
        endpoint_id: match meta.endpoint_id {
            Some(e) => e,
            None => EndpointId { kind: MediaKind::Service, id: 0 },
        },
        stream_id: match meta.stream_id {
            Some(s) => s,
            None => key,
        },
        running: k.receivers[key].running,
    }
}

/// Whether `r` shows all links, each once, in the order of their numbers.
pub open spec fn links_shown<P: AuthPolicy, D: DataPlaneBackend>(
    k: KernelModel<P, D>,
    r: Seq<SubscribeLink>,
    keys: Seq<Seq<char>>,
) -> bool {
    &&& keys.no_duplicates()
    &&& keys.to_set() == k.receivers.dom()
    &&& r.len() == keys.len()
    &&& exists|order: Seq<int>|
        {
            &&& #[trigger] order.len() == r.len()
            &&& order.no_duplicates()
            &&& forall|i: int|
                0 <= i < r.len() ==> 0 <= #[trigger] order[i] < keys.len() && r[i]@ == shown_link(
                    k,
                    keys[order[i]],
                )
        }
}

/// The words for a packing rule.
pub open spec fn serialize_words(rule: SerializeRule) -> Seq<char> {
    match rule {
        SerializeRule::Passthrough => "Passthrough"@,
        SerializeRule::Chunked => "Chunked"@,
    }
}

/// The words for a packing rule.
pub fn serialize_name(rule: SerializeRule) -> (r: &'static str)
    ensures
        r@ == serialize_words(rule),
{
    match rule {
        SerializeRule::Passthrough => "Passthrough",
        SerializeRule::Chunked => "Chunked",
    }
}

/// Where a medium is to be watched for a subscription: its packing must be understood, and the
/// relay of the node that shares must be known.
pub fn media_watch_url(spec: &SubscribeSpec) -> (r: Result<String, Error>)
    ensures
        spec.strategy.serialize == SerializeRule::Chunked ==> (r matches Err(Error::Message(t))
            && t@ == "内核不支持序列化规则 "@ + serialize_words(spec.strategy.serialize)
            + "（数据契约不匹配，订阅拒绝）"@),
        spec.strategy.serialize == SerializeRule::Passthrough ==> match spec.relay_url {
            Some(u) => r matches Ok(v) && v@ == u@,
            None => r matches Err(Error::Message(t)) && t@
                == "媒体订阅端点缺公开方中继地址（pull 未锚定）"@,
        },
{
    if loader_for(&spec.strategy).is_none() {
        return Err(
            Error::Message(
                join3(
                    "内核不支持序列化规则 ",
                    serialize_name(spec.strategy.serialize),
                    "（数据契约不匹配，订阅拒绝）",
                ),
            ),
        );
    }
    match &spec.relay_url {
        Some(u) => Ok(u.clone()),
        None => Err(
            Error::Message("媒体订阅端点缺公开方中继地址（pull 未锚定）".to_owned()),
        ),
    }
}

impl<P: AuthPolicy, D: DataPlaneBackend> Kernel<P, D> {
    /// What subscribing to an endpoint of some node comes down to; `None` when the endpoint or the
    /// strategy is unknown. The relay is known for this node only.
    pub fn resolve(&self, node: &str, endpoint: EndpointId, strategy: Option<&str>) -> (r: Option<
        SubscribeSpec,
    >)
        requires
            self.wf(),
        ensures
            match self@.registry.resolved(node@, endpoint, str_view(strategy)) {
                None => r is None,
                Some(s) => {
                    let e = self@.registry.mounts[self@.registry.key_of(node@, endpoint)];
                    &&& r matches Some(spec) && {
                        &&& spec.node_id@ == node@
                        &&& spec.kind == endpoint.kind
                        &&& spec.endpoint_id == endpoint.id
                        &&& opt_view(spec.strategy_id) == str_view(strategy)
                        &&& spec.strategy@ == s
                        &&& spec.delivery == e.delivery
                        &&& spec.stream_id@ == stream_id_of(
                            endpoint,
                            e.transport_profile,
                            e.strategies[0].pick,
                        )
                        &&& opt_view(spec.relay_url) == (if node@ == self@.registry.self_node
                            && self@.anchor is Some {
                            Some(loopback_base(self@.anchor->0.port))
                        } else {
                            None
                        })
                    }
                },
            },
    {
        let found: EndpointStrategy = match self.registry.resolve_strategy(
            node,
            endpoint,
            strategy,
        ) {
            Some(s) => s,
            None => {
                return None;
            },
        };
        let entry = match self.registry.entry_of(node, endpoint) {
            Some(e) => e,
            None => {
                return None;
            },
        };
        assert(entry@.strategies[0] == entry.strategies@[0]@);
        let stream_id: String = derive_stream_id(
            endpoint,
            entry.transport_profile,
            entry.strategies[0].pick,
        );
        let own: String = self.registry.self_node_id();
        let relay_url: Option<String> = if same(node, own.as_str()) {
            match self.local_proxy() {
                Some(p) => Some(p.ws_base),
                None => None,
            }
        } else {
            None
        };
        let strategy_id: Option<String> = match strategy {
            Some(s) => Some(s.to_owned()),
            None => None,
        };
        Some(
            SubscribeSpec {
                node_id: node.to_owned(),
                kind: endpoint.kind,
                endpoint_id: endpoint.id,
                strategy_id,
                strategy: found,
                delivery: entry.delivery,
                stream_id,
                relay_url,
            },
        )
    }

    /// Gives out a link for a subscription, and notes what it receives. The receiving end is then
    /// to be started.
    pub fn subscribe(&mut self, spec: &SubscribeSpec) -> (r: u32)
        requires
            old(self).wf(),
            old(self)@.next_link < u32::MAX,
        ensures
            final(self).wf(),
            r == old(self)@.next_link + 1,
            final(self)@ == (KernelModel {
                next_link: r,
                links: old(self)@.links.insert(
                    link_text(r),
                    LinkMetaModel {
                        node_id: spec.node_id@,
                        endpoint_id: Some(spec.endpoint()),
                        stream_id: Some(spec.stream_id@),
                    },
                ),
                ..old(self)@
            }),
    {
        let link: u32 = self.next_link_id + 1;
        self.next_link_id = link;
        let meta = ReceiveLinkMeta {
            node_id: spec.node_id.clone(),
            endpoint_id: Some(EndpointId::new(spec.kind, spec.endpoint_id)),
            stream_id: Some(spec.stream_id.clone()),
        };
        let ghost mm = meta@;
        let _ = self.receive_link_meta.insert(link_id_text(link), meta);
        assert(self@.links =~= old(self)@.links.insert(link_text(link), mm));
        assert(self@ =~= KernelModel { next_link: link, links: self@.links, ..old(self)@ });
        link
    }

    /// Ends the link of a subscription; others go on.
    pub fn unsubscribe(&mut self, link: u32) -> (r: bool)
        requires
            old(self).wf(),
        ensures
            final(self).wf(),
            r == old(self)@.receivers.dom().contains(link_text(link)),
            final(self)@ == link_stopped(old(self)@, link_text(link)),
    {
        self.stop_receive_link(link_id_text(link).as_str())
    }

    /// All links over which something is being received, in the order of their numbers.
    pub fn links(&self) -> (r: Vec<SubscribeLink>)
        requires
            self.wf(),
        ensures
            exists|keys: Seq<Seq<char>>| #[trigger] links_shown(self@, r@, keys),
            forall|i: int, j: int|
                #![trigger r@[i], r@[j]]
                0 <= i < j < r@.len() ==> r@[i].link_id <= r@[j].link_id,
    {
        let mut v: Vec<SubscribeLink> = Vec::new();
        let n: usize = self.receivers.len();
        let ghost keys = self.receivers.keys();
        let mut i: usize = 0;
        proof {
            self.receivers.lemma_keys();
            assert(self@.receivers.dom() =~= self.receivers@.dom());
        }
        while i < n
            invariant
                self.wf(),
                n == keys.len(),
                keys == self.receivers.keys(),
                i <= n,
                v@.len() == i,
                forall|j: int| 0 <= j < i ==> (#[trigger] v@[j])@ == shown_link(self@, keys[j]),
            decreases n - i,
        {
            let k: &String = self.receivers.key_at(i);
            let s: &ReceiveStats = self.receivers.value_at(i);
            let mut node_id: String = "".to_owned();
            let mut endpoint_id = EndpointId::new(MediaKind::Service, 0);
            let mut stream_id: String = k.clone();
            match self.receive_link_meta.get(k) {
                Some(m) => {
                    node_id = m.node_id.clone();
                    match m.endpoint_id {
                        Some(e) => {
                            endpoint_id = e;
                        },
                        None => {},
                    }
                    match &m.stream_id {
                        Some(x) => {
                            stream_id = x.clone();
                        },
                        None => {},
                    }
                },
                None => {},
            }
            v.push(
                SubscribeLink {
                    link_id: link_id_of(k.as_str()),
                    node_id,
                    endpoint_id,
                    stream_id,
                    running: s.running,
                },
            );
            i += 1;
        }
        let ghost unsorted = v@;
        let r = sort(v);
        proof {
            let order = crate::order::lemma_reordered(unsorted, r@);
            assert(links_shown(self@, r@, keys)) by {
                assert(order.len() == r@.len());
                assert forall|i: int| 0 <= i < r@.len() implies 0 <= #[trigger] order[i]
                    < keys.len() && r@[i]@ == shown_link(self@, keys[order[i]]) by {
                    assert(unsorted[order[i]]@ == shown_link(self@, keys[order[i]]));
                }
            }
            assert forall|i: int, j: int|
                #![trigger r@[i], r@[j]]
                0 <= i < j < r@.len() implies r@[i].link_id <= r@[j].link_id by {
                assert(r@[i].le(&r@[j]));
            }
        }
        r
    }
}

/// A subscription is resolved to what the endpoint offers: its id at the node that was named, the
/// strategy that such a subscriber gets, the direction of the endpoint, and the stream that its
/// profile and first strategy give. The relay is the one of this node when the endpoint is its own,
/// and not known otherwise.
pub proof fn law_resolved_subscription_fits_the_endpoint<P: AuthPolicy, D: DataPlaneBackend>(
    app: &Kernel<P, D>,
    node: &str,
    endpoint: EndpointId,
    strategy: Option<&str>,
    found: Option<EndpointStrategy>,
    entry: &EndpointEntry,
    stream_id: String,
    r: Option<SubscribeSpec>,
)
    requires
        call_ensures(Kernel::<P, D>::resolve, (app, node, endpoint, strategy), r),
        call_ensures(Kernel::<P, D>::resolve_strategy, (app, node, endpoint, strategy), found),
        call_ensures(UnifiedRegistry::entry_of, (&app.registry, node, endpoint), Some(entry)),
        entry.strategies@.len() > 0,
        call_ensures(
            derive_stream_id,
            (endpoint, entry.transport_profile, entry.strategies@[0].pick),
            stream_id,
        ),
    ensures
        r is Some <==> found is Some,
        r matches Some(s) ==> {
            &&& s.node_id@ == node@
            &&& s.kind == endpoint.kind
            &&& s.endpoint_id == endpoint.id
            &&& s.strategy@ == found->0@
            &&& s.delivery == entry.delivery
            &&& s.stream_id@ == stream_id@
            &&& strategy matches Some(w) ==> (s.strategy_id matches Some(x) && x@ == w@)
            &&& strategy is None ==> s.strategy_id is None
            &&& node@ == app@.registry.self_node && app.anchor is Some ==> (s.relay_url matches
                Some(u) && u@ == "ws://127.0.0.1:"@ + dec(app.anchor->0.port as nat))
            &&& node@ != app@.registry.self_node ==> s.relay_url is None
        },
{
    assert(entry@.strategies[0] == entry.strategies@[0]@);
}

/// A medium is watched at the relay that the subscription names, as long as its packing is
/// understood.
pub proof fn law_media_is_watched_at_its_relay(
    spec: &SubscribeSpec,
    r: Result<String, Error>,
)
    requires
        call_ensures(media_watch_url, (spec,), r),
    ensures
        r is Ok <==> spec.strategy.serialize is Passthrough && spec.relay_url is Some,
        r matches Ok(u) ==> u@ == spec.relay_url->0@,
{
}

/// Each subscription gets a link of its own, numbered one after the other; what it receives, and from
/// whom, is shown under that number once something is received over it.
pub proof fn law_subscription_is_shown_as_a_link<P: AuthPolicy, D: DataPlaneBackend>(
    app: &mut Kernel<P, D>,
    spec: &SubscribeSpec,
    link: u32,
    later: &Kernel<P, D>,
    shown: Vec<SubscribeLink>,
) -> (i: int)
    requires
        old(app)@.next_link < u32::MAX,
        call_ensures(Kernel::<P, D>::subscribe, (app, spec), link),
        later.wf(),
        later@.links == final(app)@.links,
        later@.receivers.dom().contains(link_text(link)),
        call_ensures(Kernel::<P, D>::links, (later,), shown),
    ensures
        link == old(app).next_link_id + 1,
        final(app).next_link_id == link,
        0 <= i < shown@.len(),
        shown@[i].link_id == link,
        shown@[i].node_id@ == spec.node_id@,
        shown@[i].endpoint_id.kind == spec.kind,
        shown@[i].endpoint_id.id == spec.endpoint_id,
        shown@[i].stream_id@ == spec.stream_id@,
        shown@[i].running == later@.receivers[link_text(link)].running,
{
    let k = later@;
    let keys = choose|keys: Seq<Seq<char>>| #[trigger] links_shown(k, shown@, keys);
    let order = choose|order: Seq<int>|
        {
            &&& #[trigger] order.len() == shown@.len()
            &&& order.no_duplicates()
            &&& forall|i: int|
                0 <= i < shown@.len() ==> 0 <= #[trigger] order[i] < keys.len() && shown@[i]@
                    == shown_link(k, keys[order[i]])
        };
    let key = link_text(link);
    assert(keys.to_set().contains(key));
    let p = choose|p: int| 0 <= p < keys.len() && keys[p] == key;
    let i = lemma_reached(order, p);
    assert(shown@[i]@ == shown_link(k, key));
    law_link_text_round_trip(link);
    i
}

/// A subscription that is ended is received no more, and others go on.
pub proof fn law_ended_subscription_is_gone<P: AuthPolicy, D: DataPlaneBackend>(
    app: &mut Kernel<P, D>,
    link: u32,
    had: bool,
    other: &str,
    before: ReceiveStats,
    after: ReceiveStats,
)
    requires
        call_ensures(Kernel::<P, D>::unsubscribe, (app, link), had),
        other@ != link_text(link),
        call_ensures(Kernel::<P, D>::receive_status_of, (&*old(app), other), before),
        call_ensures(Kernel::<P, D>::receive_status_of, (&*final(app), other), after),
    ensures
        had <==> old(app)@.receivers.dom().contains(link_text(link)),
        !final(app)@.receivers.dom().contains(link_text(link)),
        !final(app)@.links.dom().contains(link_text(link)),
        after@ == before@,
        final(app).next_link_id == old(app).next_link_id,
{
}

/// The text of a link is read back as its number, and the texts of two links differ.
pub proof fn law_link_texts_differ(a: u32, b: u32, x: String, y: String, t: &str, n: u32)
    requires
        call_ensures(link_id_text, (a,), x),
        call_ensures(link_id_text, (b,), y),
        t@ == x@,
        call_ensures(link_id_of, (t,), n),
    ensures
        n == a,
        a != b ==> x@ != y@,
{
    law_link_text_round_trip(a);
    law_link_text_round_trip(b);
}

/// A link that no subscription made is shown with the stream that comes in over it, as a service of
/// an unnamed node.
pub proof fn law_plain_link_is_shown_with_its_stream<P: AuthPolicy, D: DataPlaneBackend>(
    app: &mut Kernel<P, D>,
    link_id: &str,
    stream_id: &str,
    shown: Vec<SubscribeLink>,
) -> (i: int)
    requires
        old(app).wf(),
        call_ensures(Kernel::<P, D>::note_receive_link, (app, link_id, stream_id), ()),
        call_ensures(Kernel::<P, D>::links, (&*final(app),), shown),
    ensures
        0 <= i < shown@.len(),
        shown@[i].stream_id@ == stream_id@,
        shown@[i].node_id@.len() == 0,
        shown@[i].endpoint_id == (EndpointId { kind: MediaKind::Service, id: 0 }),
{
    reveal_strlit("");
    let k = final(app)@;
    let keys = choose|keys: Seq<Seq<char>>| #[trigger] links_shown(k, shown@, keys);
    let order = choose|order: Seq<int>|
        {
            &&& #[trigger] order.len() == shown@.len()
            &&& order.no_duplicates()
            &&& forall|i: int|
                0 <= i < shown@.len() ==> 0 <= #[trigger] order[i] < keys.len() && shown@[i]@
                    == shown_link(k, keys[order[i]])
        };
    assert(keys.to_set().contains(link_id@));
    let p = choose|p: int| 0 <= p < keys.len() && keys[p] == link_id@;
    let q = lemma_reached(order, p);
    assert(shown@[q]@ == shown_link(k, link_id@));
    assert(shown@[q]@.stream_id == stream_id@ && shown@[q]@.node_id.len() == 0);
    let i = choose|i: int|
        0 <= i < shown@.len() && (#[trigger] shown@[i]).stream_id@ == stream_id@
            && shown@[i].node_id@.len() == 0 && shown@[i].endpoint_id == (EndpointId {
            kind: MediaKind::Service,
            id: 0,
        });
    i
}

} // verus!
