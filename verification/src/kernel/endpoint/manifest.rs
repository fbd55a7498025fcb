//! What a node tells others about its endpoints.

use vstd::prelude::*;

use crate::channel::message::opt_view;
use crate::message::{
    clone_codecs, clone_strategies, clone_transports, kind_rank, law_kind_rank_injective,
    strategy_models, CodecId, Delivery,
    EndpointId, EndpointState, EndpointStrategy, MediaKind, PickRule, ReliabilityProfile,
    StrategyModel, TargetKind, TransportPreference, Visibility, VisibilityModel,
};
use crate::text::same;

verus! {

/// Everything a subscriber has to know about an endpoint.
#[derive(Debug)]
pub struct EndpointManifest {
    pub endpoint_id: u32,
    pub kind: MediaKind,
    pub name: String,
    /// Whether the endpoint can be used at all.
    pub available: bool,
    /// Why it cannot.
    pub last_error: Option<String>,
    /// Whether the endpoint is announced.
    pub published: bool,
    pub visibility: Visibility,
    pub delivery: Delivery,
    pub transports: Vec<TransportPreference>,
    pub transport_profile: ReliabilityProfile,
    /// The pick rule of the default strategy.
    pub pick_rule: PickRule,
    pub strategies: Vec<EndpointStrategy>,
    pub codecs: Vec<CodecId>,
    pub state: EndpointState,
    pub subscribers: u32,
    /// Unix time in seconds of the last change.
    pub updated_at: u64,
}

/// What a manifest is, as a mathematical value.
#[verifier::ext_equal]
pub struct ManifestModel {
    pub id: EndpointId,
    pub name: Seq<char>,
    pub available: bool,
    pub last_error: Option<Seq<char>>,
    pub published: bool,
    pub visibility: VisibilityModel,
    pub delivery: Delivery,
    pub transports: Seq<TransportPreference>,
    pub transport_profile: ReliabilityProfile,
    pub pick_rule: PickRule,
    pub strategies: Seq<StrategyModel>,
    pub codecs: Seq<CodecId>,
    pub state: EndpointState,
    pub subscribers: u32,
    pub updated_at: u64,
}

impl View for EndpointManifest {
    type V = ManifestModel;

    open spec fn view(&self) -> ManifestModel {
        ManifestModel {
            id: EndpointId { kind: self.kind, id: self.endpoint_id },
            name: self.name@,
            available: self.available,
            last_error: opt_view(self.last_error),
            published: self.published,
            visibility: self.visibility@,
            delivery: self.delivery,
            transports: self.transports@,
            transport_profile: self.transport_profile,
            pick_rule: self.pick_rule,
            strategies: strategy_models(self.strategies@),
            codecs: self.codecs@,
            state: self.state,
            subscribers: self.subscribers,
            updated_at: self.updated_at,
        }
    }
}

/// Copies an optional string.
pub fn clone_opt(s: &Option<String>) -> (r: Option<String>)
    ensures
        r == *s,
{
    match s {
        Some(t) => Some(t.clone()),
        None => None,
    }
}

impl Clone for EndpointManifest {
    fn clone(&self) -> (r: Self)
        ensures
            r@ == self@,
    {
        EndpointManifest {
            endpoint_id: self.endpoint_id,
            kind: self.kind,
            name: self.name.clone(),
            available: self.available,
            last_error: clone_opt(&self.last_error),
            published: self.published,
            visibility: self.visibility.clone(),
            delivery: self.delivery,
            transports: clone_transports(&self.transports),
            transport_profile: self.transport_profile,
            pick_rule: self.pick_rule,
            strategies: clone_strategies(&self.strategies),
            codecs: clone_codecs(&self.codecs),
            state: self.state,
            subscribers: self.subscribers,
            updated_at: self.updated_at,
        }
    }
}

impl ManifestModel {
    /// The strategies of a manifest; one without a list has the default strategy of its pick rule.
    pub open spec fn effective_strategies(self) -> Seq<StrategyModel> {
        if self.strategies.len() > 0 {
            self.strategies
        } else {
            seq![EndpointStrategy::plain(self.pick_rule)]
        }
    }

    /// The kind of target: fixed when nothing may be lost and order is strict, else live.
    pub open spec fn target(self) -> TargetKind {
        if self.transport_profile == ReliabilityProfile::Lossless && self.pick_rule
            == PickRule::StrictOrdered {
            TargetKind::Determined
        } else {
            TargetKind::Live
        }
    }

    /// The strategy that a subscriber gets: the first one with the id it asked for, else the
    /// first one of all.
    pub open spec fn strategy_for(self, wanted: Option<Seq<char>>) -> StrategyModel {
        match first_with_id(self.strategies, wanted) {
            Some(s) => s,
            None => self.effective_strategies()[0],
        }
    }
}

/// The first strategy with the given id.
pub open spec fn first_with_id(v: Seq<StrategyModel>, wanted: Option<Seq<char>>) -> Option<
    StrategyModel,
>
    decreases v.len(),
{
    if v.len() == 0 || wanted is None {
        None
    } else if v[0].strategy_id == wanted->0 {
        Some(v[0])
    } else {
        first_with_id(v.drop_first(), wanted)
    }
}

/// The characters of an optional string slice.
pub open spec fn str_view(s: Option<&str>) -> Option<Seq<char>> {
    match s {
        Some(t) => Some(t@),
        None => None,
    }
}

/// The characters of an optional strategy.
pub open spec fn strategy_view(s: Option<EndpointStrategy>) -> Option<StrategyModel> {
    match s {
        Some(x) => Some(x@),
        None => None,
    }
}

/// The first strategy with the given id.
pub fn find_strategy(v: &Vec<EndpointStrategy>, wanted: Option<&str>) -> (r: Option<
    EndpointStrategy,
>)
    ensures
        strategy_view(r) == first_with_id(strategy_models(v@), str_view(wanted)),
{
    let id: &str = match wanted {
        None => {
            return None;
        },
        Some(t) => t,
    };
    let ghost models = strategy_models(v@);
    let mut i: usize = 0;
    assert(models.skip(0) =~= models);
    while i < v.len()
        invariant
            wanted == Some(id),
            models == strategy_models(v@),
            i <= v@.len(),
            first_with_id(models, Some(id@)) == first_with_id(models.skip(i as int), Some(id@)),
        decreases v.len() - i,
    {
        assert(models.skip(i as int)[0] == v@[i as int]@);
        if same(v[i].strategy_id.as_str(), id) {
            return Some(v[i].clone());
        }
        assert(models.skip(i as int).drop_first() =~= models.skip(i as int + 1));
        i += 1;
    }
    None
}

impl EndpointManifest {
    /// The strategies of this manifest.
    pub fn strategies_of(&self) -> (r: Vec<EndpointStrategy>)
        ensures
            strategy_models(r@) == self@.effective_strategies(),
            r@.len() > 0,
    {
        if self.strategies.len() > 0 {
            return clone_strategies(&self.strategies);
        }
        let mut r: Vec<EndpointStrategy> = Vec::new();
        r.push(EndpointStrategy::passthrough(self.pick_rule));
        assert(strategy_models(r@) =~= seq![EndpointStrategy::plain(self.pick_rule)]);
        r
    }

    /// The kind of target of this manifest.
    pub fn target_kind(&self) -> (r: TargetKind)
        ensures
            r == self@.target(),
    {
        if self.transport_profile == ReliabilityProfile::Lossless && self.pick_rule
            == PickRule::StrictOrdered {
            TargetKind::Determined
        } else {
            TargetKind::Live
        }
    }

    /// The strategy that a subscriber gets who asked for the given id.
    pub fn strategy(&self, wanted: Option<&str>) -> (r: EndpointStrategy)
        ensures
            r@ == self@.strategy_for(str_view(wanted)),
    {
        match find_strategy(&self.strategies, wanted) {
            Some(s) => s,
            None => {
                if self.strategies.len() > 0 {
                    self.strategies[0].clone()
                } else {
                    EndpointStrategy::passthrough(self.pick_rule)
                }
            },
        }
    }
}

/// The short form of an endpoint in an announcement.
#[derive(Debug)]
pub struct EndpointSummary {
    pub endpoint_id: u32,
    pub kind: MediaKind,
    pub name: String,
    pub available: bool,
    pub published: bool,
}

/// What a summary is, as a mathematical value.
pub struct SummaryModel {
    pub id: EndpointId,
    pub name: Seq<char>,
    pub available: bool,
    pub published: bool,
}

impl View for EndpointSummary {
    type V = SummaryModel;

    open spec fn view(&self) -> SummaryModel {
        SummaryModel {
            id: EndpointId { kind: self.kind, id: self.endpoint_id },
            name: self.name@,
            available: self.available,
            published: self.published,
        }
    }
}

/// The node that a directory describes.
#[derive(Debug)]
pub struct EndpointNode {
    pub node_id: String,
    pub node_name: String,
}

/// The endpoints that a node offers.
#[derive(Debug)]
pub struct EndpointDir {
    pub node: EndpointNode,
    pub endpoints: Vec<EndpointManifest>,
}

/// Whether one endpoint is listed before another, or at the same place: by the place of its kind,
/// then by its number.
pub open spec fn listed_le(a: EndpointId, b: EndpointId) -> bool {
    a.kind.rank() < b.kind.rank() || (a.kind.rank() == b.kind.rank() && a.id <= b.id)
}

/// Whether one endpoint is listed before another, or at the same place.
pub fn listed_leq(a: EndpointId, b: EndpointId) -> (r: bool)
    ensures
        r == listed_le(a, b),
{
    let x: u8 = kind_rank(a.kind);
    let y: u8 = kind_rank(b.kind);
    x < y || (x == y && a.id <= b.id)
}

/// Endpoints are listed by their kinds, and those of one kind by their numbers; two different ones
/// never stand at the same place.
pub proof fn law_kind_then_number_orders_endpoints(
    a: EndpointId,
    b: EndpointId,
    ab: bool,
    ba: bool,
    first: u8,
    second: u8,
)
    requires
        call_ensures(listed_leq, (a, b), ab),
        call_ensures(listed_leq, (b, a), ba),
        call_ensures(kind_rank, (a.kind,), first),
        call_ensures(kind_rank, (b.kind,), second),
    ensures
        first < second ==> ab && !ba,
        a.kind == b.kind && a.id < b.id ==> ab && !ba,
        ab && ba <==> a == b,
        ab || ba,
{
    law_kind_rank_injective(a.kind, b.kind);
}

/// An endpoint holds a fixed piece of data when it is carried without loss and in strict order, and
/// goes on without end otherwise.
pub proof fn law_target_follows_how_data_is_carried(m: &EndpointManifest, r: TargetKind)
    requires
        call_ensures(EndpointManifest::target_kind, (m,), r),
    ensures
        r is Determined <==> m.transport_profile is Lossless && m.pick_rule is StrictOrdered,
{
}

/// An endpoint has the strategies that it lists, in that order; one that lists none has the standard
/// one, with the pick rule of the endpoint.
pub proof fn law_endpoint_always_has_a_strategy(
    m: &EndpointManifest,
    r: Vec<EndpointStrategy>,
    i: int,
)
    requires
        call_ensures(EndpointManifest::strategies_of, (m,), r),
        0 <= i < r@.len(),
    ensures
        m.strategies@.len() > 0 ==> r@.len() == m.strategies@.len() && r@[i]@ == m.strategies@[i]@,
        m.strategies@.len() == 0 ==> r@.len() == 1 && r@[0].pick == m.pick_rule
            && r@[0].serialize is Passthrough,
{
    assert(strategy_models(r@)[i] == r@[i]@);
    assert(strategy_models(r@)[0] == r@[0]@);
    assert(strategy_models(r@).len() == r@.len());
    if m.strategies@.len() > 0 {
        assert(strategy_models(m.strategies@)[i] == m.strategies@[i]@);
        assert(strategy_models(m.strategies@).len() == m.strategies@.len());
    }
}

} // verus!
