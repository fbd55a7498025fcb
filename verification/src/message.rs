//! Values that nodes exchange: media kinds, transports, strategies and their identifiers.

use vstd::prelude::*;

use crate::channel::message::opt_view;
use crate::stream_id::lemma_labels;
use crate::table::Key;
use crate::text::{
    chars_of, dec, decimal, find_first, first_place, join3, lemma_first_place_is,
    lemma_parse_number, parse_number, parsed_number, same, string_of,
};

verus! {

/// What an endpoint shares.
#[derive(Debug, Clone, Copy, PartialEq, Eq, Structural)]
pub enum MediaKind {
    Screen,
    Window,
    Camera,
    Mic,
    SystemAudio,
    File,
    Clipboard,
    Input,
    Service,
}

impl MediaKind {
    /// The name used on the wire and in requests shown to the user.
    pub open spec fn label(self) -> Seq<char> {
        match self {
            MediaKind::Screen => "screen"@,
            MediaKind::Window => "window"@,
            MediaKind::Camera => "camera"@,
            MediaKind::Mic => "mic"@,
            MediaKind::SystemAudio => "systemAudio"@,
            MediaKind::File => "file"@,
            MediaKind::Clipboard => "clipboard"@,
            MediaKind::Input => "input"@,
            MediaKind::Service => "service"@,
        }
    }

    pub fn as_str(self) -> (r: &'static str)
        ensures
            r@ == self.label(),
    {
        match self {
            MediaKind::Screen => "screen",
            MediaKind::Window => "window",
            MediaKind::Camera => "camera",
            MediaKind::Mic => "mic",
            MediaKind::SystemAudio => "systemAudio",
            MediaKind::File => "file",
            MediaKind::Clipboard => "clipboard",
            MediaKind::Input => "input",
            MediaKind::Service => "service",
        }
    }

    /// The kind that a name stands for.
    pub open spec fn of_label(name: Seq<char>) -> Option<MediaKind> {
        if name == "screen"@ {
            Some(MediaKind::Screen)
        } else if name == "window"@ {
            Some(MediaKind::Window)
        } else if name == "camera"@ {
            Some(MediaKind::Camera)
        } else if name == "mic"@ {
            Some(MediaKind::Mic)
        } else if name == "systemAudio"@ {
            Some(MediaKind::SystemAudio)
        } else if name == "file"@ {
            Some(MediaKind::File)
        } else if name == "clipboard"@ {
            Some(MediaKind::Clipboard)
        } else if name == "input"@ {
            Some(MediaKind::Input)
        } else if name == "service"@ {
            Some(MediaKind::Service)
        } else {
            None
        }
    }

    /// The kind that a name stands for.
    pub fn from_name(name: &str) -> (r: Option<MediaKind>)
        ensures
            r == MediaKind::of_label(name@),
    {
        if same(name, "screen") {
            Some(MediaKind::Screen)
        } else if same(name, "window") {
            Some(MediaKind::Window)
        } else if same(name, "camera") {
            Some(MediaKind::Camera)
        } else if same(name, "mic") {
            Some(MediaKind::Mic)
        } else if same(name, "systemAudio") {
            Some(MediaKind::SystemAudio)
        } else if same(name, "file") {
            Some(MediaKind::File)
        } else if same(name, "clipboard") {
            Some(MediaKind::Clipboard)
        } else if same(name, "input") {
            Some(MediaKind::Input)
        } else if same(name, "service") {
            Some(MediaKind::Service)
        } else {
            None
        }
    }

    /// The place of the kind in a directory listing.
    pub open spec fn rank(self) -> u8 {
        match self {
            MediaKind::Screen => 0,
            MediaKind::Window => 1,
            MediaKind::Camera => 2,
            MediaKind::Mic => 3,
            MediaKind::SystemAudio => 4,
            MediaKind::File => 5,
            MediaKind::Clipboard => 6,
            MediaKind::Input => 7,
            MediaKind::Service => 8,
        }
    }
}

/// The place of a media kind in a directory listing: screens first, services last.
pub fn kind_rank(kind: MediaKind) -> (r: u8)
    ensures
        r == kind.rank(),
{
    match kind {
        MediaKind::Screen => 0,
        MediaKind::Window => 1,
        MediaKind::Camera => 2,
        MediaKind::Mic => 3,
        MediaKind::SystemAudio => 4,
        MediaKind::File => 5,
        MediaKind::Clipboard => 6,
        MediaKind::Input => 7,
        MediaKind::Service => 8,
    }
}

/// Different media kinds have different places.
pub proof fn law_kind_rank_injective(a: MediaKind, b: MediaKind)
    ensures
        a.rank() == b.rank() ==> a == b,
{
}

/// The family of abilities that an endpoint belongs to.
#[derive(Debug, Clone, Copy, PartialEq, Eq, Structural)]
pub enum EndpointClass {
    Graph,
    Audio,
    File,
    Clipboard,
    Input,
    Service,
}

impl EndpointClass {
    /// The family of each media kind.
    pub open spec fn of(kind: MediaKind) -> EndpointClass {
        match kind {
            MediaKind::Screen | MediaKind::Window | MediaKind::Camera => EndpointClass::Graph,
            MediaKind::Mic | MediaKind::SystemAudio => EndpointClass::Audio,
            MediaKind::File => EndpointClass::File,
            MediaKind::Clipboard => EndpointClass::Clipboard,
            MediaKind::Input => EndpointClass::Input,
            MediaKind::Service => EndpointClass::Service,
        }
    }

    /// Screens, windows and cameras are graphics; microphones and system audio are audio; every
    /// other kind is a family of its own.
    pub fn from_kind(kind: MediaKind) -> (r: EndpointClass)
        ensures
            r == EndpointClass::of(kind),
    {
        match kind {
            MediaKind::Screen | MediaKind::Window | MediaKind::Camera => EndpointClass::Graph,
            MediaKind::Mic | MediaKind::SystemAudio => EndpointClass::Audio,
            MediaKind::File => EndpointClass::File,
            MediaKind::Clipboard => EndpointClass::Clipboard,
            MediaKind::Input => EndpointClass::Input,
            MediaKind::Service => EndpointClass::Service,
        }
    }
}

/// A transport protocol.
#[derive(Debug, Clone, Copy, PartialEq, Eq, Structural)]
pub enum TransportId {
    Ws,
    WebRtc,
    Srt,
    Quic,
}

/// A codec.
#[derive(Debug, Clone, Copy, PartialEq, Eq, Structural)]
pub enum CodecId {
    H264,
    Aac,
}

/// What a transport promises about delivery.
#[derive(Debug, Clone, Copy, PartialEq, Eq, Structural)]
pub enum ReliabilityProfile {
    Lossless,
    Lossy,
    Adaptive,
}

/// How received frames are read.
#[derive(Debug, Clone, Copy, PartialEq, Eq, Structural)]
pub enum PickRule {
    /// As soon as possible; lost frames are tolerated.
    Realtime,
    /// In strict order; nothing may be lost.
    StrictOrdered,
}

/// How frames are packed before they are sent.
#[derive(Debug, Clone, Copy, PartialEq, Eq, Structural)]
pub enum SerializeRule {
    Passthrough,
    /// Reserved: no loader implements it.
    Chunked,
}

/// Who may subscribe to an endpoint.
#[derive(Debug)]
pub enum Visibility {
    /// Everybody.
    Public,
    /// Everybody the user confirms.
    Confirm,
    /// The devices of a list.
    Private { nodes: Vec<String> },
}

/// What a visibility is, as a mathematical value.
pub enum VisibilityModel {
    Public,
    Confirm,
    Private { nodes: Seq<Seq<char>> },
}

impl View for Visibility {
    type V = VisibilityModel;

    open spec fn view(&self) -> VisibilityModel {
        match self {
            Visibility::Public => VisibilityModel::Public,
            Visibility::Confirm => VisibilityModel::Confirm,
            Visibility::Private { nodes } => VisibilityModel::Private { nodes: texts(nodes@) },
        }
    }
}

impl Clone for Visibility {
    fn clone(&self) -> (r: Self)
        ensures
            r@ == self@,
    {
        match self {
            Visibility::Public => Visibility::Public,
            Visibility::Confirm => Visibility::Confirm,
            Visibility::Private { nodes } => Visibility::Private { nodes: clone_strings(nodes) },
        }
    }
}

/// Who opens the data connection of a subscription.
#[derive(Debug, Clone, Copy, PartialEq, Eq, Structural)]
pub enum Delivery {
    Pull,
    Push,
    Both,
}

/// Whether an endpoint is being subscribed to.
#[derive(Debug, Clone, Copy, PartialEq, Eq, Structural)]
pub enum EndpointState {
    Idle,
    Active,
}

/// Whether an endpoint produces without end or has a fixed content.
#[derive(Debug, Clone, Copy, PartialEq, Eq, Structural)]
pub enum TargetKind {
    Live,
    Determined,
}

/// The name of an endpoint within its node.
#[derive(Debug, Clone, Copy, PartialEq, Eq, Structural)]
pub struct EndpointId {
    pub kind: MediaKind,
    pub id: u32,
}

impl EndpointId {
    pub fn new(kind: MediaKind, id: u32) -> (r: EndpointId)
        ensures
            r == (EndpointId { kind, id }),
    {
        EndpointId { kind, id }
    }

    /// The text of an endpoint id: kind and number, as in `screen:0`.
    pub open spec fn text(self) -> Seq<char> {
        self.kind.label() + ":"@ + dec(self.id as nat)
    }

    /// The text of this endpoint id.
    pub fn to_text(self) -> (r: String)
        ensures
            r@ == self.text(),
    {
        join3(self.kind.as_str(), ":", decimal(self.id as u64).as_str())
    }

    /// The endpoint id that a text stands for: the name of a kind, a colon and a number.
    pub open spec fn parsed(s: Seq<char>) -> Option<EndpointId> {
        let k = first_place(s, ':');
        if k >= s.len() {
            None
        } else {
            match (MediaKind::of_label(s.take(k)), parsed_number(s.skip(k + 1), u32::MAX as nat)) {
                (Some(kind), Some(id)) => Some(EndpointId { kind, id: id as u32 }),
                _ => None,
            }
        }
    }

    /// The endpoint id that a text stands for.
    pub fn parse(s: &str) -> (r: Option<EndpointId>)
        ensures
            r == EndpointId::parsed(s@),
    {
        let v = chars_of(s);
        let n: usize = v.len();
        let k: usize = find_first(&v, ':');
        if k >= n {
            return None;
        }
        let name: String = string_of(&v, 0, k);
        let number: String = string_of(&v, k + 1, n);
        assert(name@ =~= s@.take(k as int));
        assert(number@ =~= s@.skip(k as int + 1));
        let kind: MediaKind = match MediaKind::from_name(name.as_str()) {
            Some(x) => x,
            None => {
                return None;
            },
        };
        match parse_number(number.as_str(), 4294967295) {
            Some(id) => Some(EndpointId { kind, id: id as u32 }),
            None => None,
        }
    }
}

/// An endpoint id can be read back from its text.
pub proof fn law_endpoint_text_round_trip(id: EndpointId)
    ensures
        EndpointId::parsed(id.text()) == Some(id),
{
    reveal_strlit(":");
    let label = id.kind.label();
    let t = id.text();
    lemma_labels(id.kind, MediaKind::Screen);
    lemma_labels(id.kind, MediaKind::Window);
    lemma_labels(id.kind, MediaKind::Camera);
    lemma_labels(id.kind, MediaKind::Mic);
    lemma_labels(id.kind, MediaKind::SystemAudio);
    lemma_labels(id.kind, MediaKind::File);
    lemma_labels(id.kind, MediaKind::Clipboard);
    lemma_labels(id.kind, MediaKind::Input);
    lemma_labels(id.kind, MediaKind::Service);
    assert(t.take(label.len() as int) =~= label);
    assert(t.skip(label.len() as int + 1) =~= dec(id.id as nat));
    assert forall|i: int| 0 <= i < label.len() implies t[i] != ':' by {
        assert(t[i] == label[i]);
    }
    lemma_first_place_is(t, ':', label.len() as int);
    lemma_parse_number(id.id as nat, u32::MAX as nat);
}

/// The name of an endpoint among all nodes: its node, and its name there.
#[derive(Debug)]
pub struct EndpointRef {
    pub owner: String,
    pub id: EndpointId,
}

/// What an endpoint reference is, as a mathematical value.
pub struct RefModel {
    pub owner: Seq<char>,
    pub id: EndpointId,
}

impl View for EndpointRef {
    type V = RefModel;

    open spec fn view(&self) -> RefModel {
        RefModel { owner: self.owner@, id: self.id }
    }
}

impl EndpointRef {
    pub fn new(owner: &str, id: EndpointId) -> (r: EndpointRef)
        ensures
            r@ == (RefModel { owner: owner@, id }),
    {
        EndpointRef { owner: owner.to_owned(), id }
    }
}

impl Clone for EndpointRef {
    fn clone(&self) -> (r: Self)
        ensures
            r == *self,
    {
        EndpointRef { owner: self.owner.clone(), id: self.id }
    }
}

impl Key for EndpointRef {
    type Model = RefModel;

    open spec fn model(&self) -> RefModel {
        self@
    }

    fn same_key(&self, other: &Self) -> (r: bool) {
        self.owner == other.owner && self.id == other.id
    }
}

/// The models of a list of endpoint references.
pub open spec fn ref_models(v: Seq<EndpointRef>) -> Seq<RefModel> {
    v.map_values(|k: EndpointRef| k@)
}

/// One entry of an ordered list of transports; a lower priority number is preferred.
#[derive(Debug, Clone, Copy, PartialEq, Eq, Structural)]
pub struct TransportPreference {
    pub transport: TransportId,
    pub priority: u8,
}

/// How an endpoint's data is packed and read.
#[derive(Debug)]
pub struct EndpointStrategy {
    pub strategy_id: String,
    pub serialize: SerializeRule,
    pub pick: PickRule,
}

impl Clone for EndpointStrategy {
    fn clone(&self) -> (r: Self)
        ensures
            r == *self,
    {
        EndpointStrategy {
            strategy_id: self.strategy_id.clone(),
            serialize: self.serialize,
            pick: self.pick,
        }
    }
}

/// What a strategy is, as a mathematical value.
pub struct StrategyModel {
    pub strategy_id: Seq<char>,
    pub serialize: SerializeRule,
    pub pick: PickRule,
}

impl View for EndpointStrategy {
    type V = StrategyModel;

    open spec fn view(&self) -> StrategyModel {
        StrategyModel {
            strategy_id: self.strategy_id@,
            serialize: self.serialize,
            pick: self.pick,
        }
    }
}

/// The models of a list of strategies.
pub open spec fn strategy_models(v: Seq<EndpointStrategy>) -> Seq<StrategyModel> {
    v.map_values(|s: EndpointStrategy| s@)
}

/// Id of the strategy that every endpoint has.
pub const DEFAULT_STRATEGY_ID: &'static str = "default";

impl EndpointStrategy {
    /// The default strategy for a pick rule: unpacked, under the default id.
    pub open spec fn plain(pick: PickRule) -> StrategyModel {
        StrategyModel {
            strategy_id: DEFAULT_STRATEGY_ID@,
            serialize: SerializeRule::Passthrough,
            pick,
        }
    }

    /// The default strategy for a pick rule.
    pub fn passthrough(pick: PickRule) -> (r: EndpointStrategy)
        ensures
            r@ == EndpointStrategy::plain(pick),
    {
        EndpointStrategy {
            strategy_id: DEFAULT_STRATEGY_ID.to_owned(),
            serialize: SerializeRule::Passthrough,
            pick,
        }
    }
}

/// The characters of each string of a list.
pub open spec fn texts(v: Seq<String>) -> Seq<Seq<char>> {
    v.map_values(|s: String| s@)
}

/// The path that the data of a session takes.
#[derive(Debug)]
pub enum RoutePath {
    Direct { node: String },
    ViaRelay { node: String },
    Mesh { nodes: Vec<String> },
}

/// What a route is, as a mathematical value.
pub enum RouteModel {
    Direct { node: Seq<char> },
    ViaRelay { node: Seq<char> },
    Mesh { nodes: Seq<Seq<char>> },
}

impl View for RoutePath {
    type V = RouteModel;

    open spec fn view(&self) -> RouteModel {
        match self {
            RoutePath::Direct { node } => RouteModel::Direct { node: node@ },
            RoutePath::ViaRelay { node } => RouteModel::ViaRelay { node: node@ },
            RoutePath::Mesh { nodes } => RouteModel::Mesh { nodes: texts(nodes@) },
        }
    }
}

impl Clone for RoutePath {
    fn clone(&self) -> (r: Self)
        ensures
            r@ == self@,
    {
        match self {
            RoutePath::Direct { node } => RoutePath::Direct { node: node.clone() },
            RoutePath::ViaRelay { node } => RoutePath::ViaRelay { node: node.clone() },
            RoutePath::Mesh { nodes } => RoutePath::Mesh { nodes: clone_strings(nodes) },
        }
    }
}

/// Copies a list of strings.
pub fn clone_strings(v: &Vec<String>) -> (r: Vec<String>)
    ensures
        r@ == v@,
{
    let r = v.clone();
    assert(r@ =~= v@);
    r
}

/// Copies a list of transport preferences.
pub fn clone_transports(v: &Vec<TransportPreference>) -> (r: Vec<TransportPreference>)
    ensures
        r@ == v@,
{
    let r = v.clone();
    assert(r@ =~= v@);
    r
}

/// Copies a list of codecs.
pub fn clone_codecs(v: &Vec<CodecId>) -> (r: Vec<CodecId>)
    ensures
        r@ == v@,
{
    let r = v.clone();
    assert(r@ =~= v@);
    r
}

/// Copies a list of media kinds.
pub fn clone_kinds(v: &Vec<MediaKind>) -> (r: Vec<MediaKind>)
    ensures
        r@ == v@,
{
    let r = v.clone();
    assert(r@ =~= v@);
    r
}

/// Copies a list of strategies.
pub fn clone_strategies(v: &Vec<EndpointStrategy>) -> (r: Vec<EndpointStrategy>)
    ensures
        r@ == v@,
        strategy_models(r@) == strategy_models(v@),
{
    let r = v.clone();
    assert(r@ =~= v@);
    r
}

impl Key for EndpointId {
    type Model = EndpointId;

    open spec fn model(&self) -> EndpointId {
        *self
    }

    fn same_key(&self, other: &Self) -> (r: bool) {
        *self == *other
    }
}

impl Key for EndpointClass {
    type Model = EndpointClass;

    open spec fn model(&self) -> EndpointClass {
        *self
    }

    fn same_key(&self, other: &Self) -> (r: bool) {
        *self == *other
    }
}

/// What a node subscribes to, and how.
#[derive(Debug)]
pub struct SubscribeSpec {
    pub node_id: String,
    pub kind: MediaKind,
    pub endpoint_id: u32,
    pub strategy_id: Option<String>,
    pub strategy: EndpointStrategy,
    pub delivery: Delivery,
    pub stream_id: String,
    /// The relay of the node that shares, if it is known.
    pub relay_url: Option<String>,
}

impl SubscribeSpec {
    /// The endpoint that is subscribed to.
    pub open spec fn endpoint(&self) -> EndpointId {
        EndpointId { kind: self.kind, id: self.endpoint_id }
    }
}

/// What an endpoint is told when a subscription to it comes about.
#[derive(Debug)]
pub struct SubscribeCtx {
    /// The device that subscribes.
    pub subscriber: String,
    pub delivery: Delivery,
    pub stream_id: String,
    pub transport_profile: ReliabilityProfile,
    pub strategy: EndpointStrategy,
    /// The relay of the subscriber, when data is pushed to it.
    pub relay_addr: Option<String>,
    /// The token of the subscriber, when data is pushed to it.
    pub share_token: Option<String>,
}

/// What an endpoint is told about a subscription, as a mathematical value.
pub struct CtxModel {
    pub subscriber: Seq<char>,
    pub delivery: Delivery,
    pub stream_id: Seq<char>,
    pub transport_profile: ReliabilityProfile,
    pub strategy: StrategyModel,
    pub relay_addr: Option<Seq<char>>,
    pub share_token: Option<Seq<char>>,
}

impl View for SubscribeCtx {
    type V = CtxModel;

    open spec fn view(&self) -> CtxModel {
        CtxModel {
            subscriber: self.subscriber@,
            delivery: self.delivery,
            stream_id: self.stream_id@,
            transport_profile: self.transport_profile,
            strategy: self.strategy@,
            relay_addr: opt_view(self.relay_addr),
            share_token: opt_view(self.share_token),
        }
    }
}

/// The name of a kind is read back as the kind, and the text of an endpoint as the endpoint.
pub proof fn law_names_are_read_back(
    kind: MediaKind,
    name: &str,
    back: Option<MediaKind>,
    id: EndpointId,
    text: String,
    t: &str,
    parsed: Option<EndpointId>,
)
    requires
        call_ensures(MediaKind::as_str, (kind,), name),
        call_ensures(MediaKind::from_name, (name,), back),
        call_ensures(EndpointId::to_text, (id,), text),
        t@ == text@,
        call_ensures(EndpointId::parse, (t,), parsed),
    ensures
        back == Some(kind),
        parsed == Some(id),
{
    lemma_labels(kind, MediaKind::Screen);
    lemma_labels(kind, MediaKind::Window);
    lemma_labels(kind, MediaKind::Camera);
    lemma_labels(kind, MediaKind::Mic);
    lemma_labels(kind, MediaKind::SystemAudio);
    lemma_labels(kind, MediaKind::File);
    lemma_labels(kind, MediaKind::Clipboard);
    lemma_labels(kind, MediaKind::Input);
    lemma_labels(kind, MediaKind::Service);
    law_endpoint_text_round_trip(id);
}

/// Kinds are listed from what is seen to what is heard, files, and the rest: a screen before a window,
/// a window before a camera, and all of these before a microphone, which comes before a file.
pub proof fn law_kinds_are_listed_in_order(a: u8, b: u8, c: u8, d: u8, e: u8, f: u8)
    requires
        call_ensures(kind_rank, (MediaKind::Screen,), a),
        call_ensures(kind_rank, (MediaKind::Window,), b),
        call_ensures(kind_rank, (MediaKind::Camera,), c),
        call_ensures(kind_rank, (MediaKind::Mic,), d),
        call_ensures(kind_rank, (MediaKind::File,), e),
        call_ensures(kind_rank, (MediaKind::Service,), f),
    ensures
        a < b < c < d < e < f,
{
}

/// What is seen, what is heard and what is a file are of three families, and two kinds are of one
/// family only when both are seen or both are heard.
pub proof fn law_families_of_kinds(x: MediaKind, y: MediaKind, a: EndpointClass, b: EndpointClass)
    requires
        call_ensures(EndpointClass::from_kind, (x,), a),
        call_ensures(EndpointClass::from_kind, (y,), b),
    ensures
        ({
            let seen = |k: MediaKind| k is Screen || k is Window || k is Camera;
            let heard = |k: MediaKind| k is Mic || k is SystemAudio;
            a == b <==> x == y || (seen(x) && seen(y)) || (heard(x) && heard(y))
        }),
{
}

/// The standard strategy packs nothing and reads as it was asked for.
pub proof fn law_standard_strategy_packs_nothing(pick: PickRule, r: EndpointStrategy)
    requires
        call_ensures(EndpointStrategy::passthrough, (pick,), r),
    ensures
        r.serialize is Passthrough,
        r.pick == pick,
        r.strategy_id@ == "default"@,
{
}

} // verus!
