//! Control over sessions: creation, access codes, teardown and access tokens.

use vstd::prelude::*;
use vstd::string::*;

use crate::error::Error;
use crate::kernel::auth::{AuthError, AuthPolicy, PinAuthPolicy};
use crate::kernel::data_plane::DataPlaneBackend;
use crate::kernel::graph::{
    CapabilityDescriptor, CapabilityModel, NodeGraph, NodeInfo, NodeModel,
};
use crate::kernel::session::{
    start_path, Negotiated, Router, Session, SessionManager, SessionModel, SessionPrefs,
};
use crate::message::{
    clone_kinds, clone_strings, texts, CodecId, MediaKind, ReliabilityProfile, RoutePath,
    TransportId,
};
use crate::table::Table;
use crate::text::{
    dec, decimal, hex, hexadecimal, is_digit, join2, join3, join_all, joined,
    lemma_numeral_injective, lemma_parse_dec, numeral, pad_zeros, zero_padded,
};

verus! {

/// A one-time token with which another device may push a stream.
#[derive(Debug)]
pub struct ShareToken {
    pub v: u32,
    pub stream_id: String,
    /// Six digits.
    pub pin: String,
    /// Unix time in seconds from which on the token is no longer valid.
    pub expires_at: u64,
    pub media: Vec<MediaKind>,
}

/// Version of the token format.
pub const TOKEN_VERSION: u32 = 1;

/// What a token is, as a mathematical value.
#[verifier::ext_equal]
pub struct TokenModel {
    pub v: u32,
    pub stream_id: Seq<char>,
    pub pin: Seq<char>,
    pub expires_at: u64,
    pub media: Seq<MediaKind>,
}

impl View for ShareToken {
    type V = TokenModel;

    open spec fn view(&self) -> TokenModel {
        TokenModel {
            v: self.v,
            stream_id: self.stream_id@,
            pin: self.pin@,
            expires_at: self.expires_at,
            media: self.media@,
        }
    }
}

impl TokenModel {
    /// The token as text: version, stream, pin, end and media, separated by colons. This form is
    /// the library's own: it tells tokens apart in one process, and no other program reads it.
    pub open spec fn text(self) -> Seq<char> {
        dec(self.v as nat) + ":"@ + self.stream_id + ":"@ + self.pin + ":"@ + dec(
            self.expires_at as nat,
        ) + ":"@ + joined(kind_labels(self.media), ","@)
    }

    /// Whether the token is no longer valid at the time `now`.
    pub open spec fn expired(self, now: u64) -> bool {
        now >= self.expires_at
    }
}

impl Clone for ShareToken {
    fn clone(&self) -> (r: Self)
        ensures
            r@ == self@,
    {
        ShareToken {
            v: self.v,
            stream_id: self.stream_id.clone(),
            pin: self.pin.clone(),
            expires_at: self.expires_at,
            media: clone_kinds(&self.media),
        }
    }
}

/// The names of a list of media kinds.
pub open spec fn kind_labels(v: Seq<MediaKind>) -> Seq<Seq<char>> {
    v.map_values(|k: MediaKind| k.label())
}

/// The names of a list of media kinds.
pub fn kind_names(v: &Vec<MediaKind>) -> (r: Vec<String>)
    ensures
        texts(r@) == kind_labels(v@),
{
    let mut r: Vec<String> = Vec::new();
    let mut i: usize = 0;
    while i < v.len()
        invariant
            i <= v@.len(),
            r@.len() == i,
            forall|j: int| 0 <= j < i ==> (#[trigger] r@[j])@ == v@[j].label(),
        decreases v.len() - i,
    {
        r.push(v[i].as_str().to_owned());
        i += 1;
    }
    assert(texts(r@) =~= kind_labels(v@));
    r
}

fn same_kinds(a: &Vec<MediaKind>, b: &Vec<MediaKind>) -> (r: bool)
    ensures
        r == (a@ == b@),
{
    if a.len() != b.len() {
        return false;
    }
    let mut i: usize = 0;
    while i < a.len()
        invariant
            a@.len() == b@.len(),
            i <= a@.len(),
            forall|j: int| 0 <= j < i ==> a@[j] == b@[j],
        decreases a.len() - i,
    {
        if a[i] != b[i] {
            return false;
        }
        i += 1;
    }
    assert(a@ =~= b@);
    true
}

impl ShareToken {
    /// Whether the token is no longer valid at the time `now`.
    pub fn is_expired(&self, now: u64) -> (r: bool)
        ensures
            r == self@.expired(now),
    {
        now >= self.expires_at
    }

    /// The token as text, to be handed to another device.
    pub fn to_token_string(&self) -> (r: String)
        ensures
            r@ == self@.text(),
    {
        let names = kind_names(&self.media);
        let a: String = join3(decimal(self.v as u64).as_str(), ":", self.stream_id.as_str());
        let b: String = join3(a.as_str(), ":", self.pin.as_str());
        let c: String = join3(b.as_str(), ":", decimal(self.expires_at).as_str());
        let d: String = join_all(&names, ",");
        assert(names@.map_values(|s: String| s@) =~= texts(names@));
        join3(c.as_str(), ":", d.as_str())
    }

    /// Whether two tokens are the same in every part.
    pub fn same(&self, other: &ShareToken) -> (r: bool)
        ensures
            r == (self@ == other@),
    {
        let r: bool = self.v == other.v && self.stream_id == other.stream_id && self.pin
            == other.pin && self.expires_at == other.expires_at && same_kinds(
            &self.media,
            &other.media,
        );
        assert(r ==> self@ =~= other@);
        r
    }
}

/// A token as it is shown to the device that gets it.
#[derive(Debug)]
pub struct ShareTokenView {
    /// The token as text; empty when the stream is let in without one.
    pub token: String,
    pub stream_id: String,
    pub pin: String,
    pub expires_at: u64,
}

/// Trusted: calls `fastrand::u32`, which returns some number of the given range. Which one it is
/// depends on the state of the generator and is left open.
#[verifier::external_body]
fn random_below_million() -> (r: u32)
    ensures
        r < 1_000_000,
{
    fastrand::u32(0..1_000_000)
}

/// The six digits of a number below a million.
pub open spec fn pin_text(n: u32) -> Seq<char> {
    zero_padded(dec(n as nat), 6)
}

/// The six digits of a number below a million.
pub fn pin_of(n: u32) -> (r: String)
    ensures
        r@ == pin_text(n),
{
    pad_zeros(decimal(n as u64).as_str(), 6)
}

/// Whether a text is the pin of some number below a million.
pub open spec fn is_pin(s: Seq<char>) -> bool {
    exists|n: u32| n < 1_000_000 && s == #[trigger] pin_text(n)
}

/// A random pin.
pub fn random_pin() -> (r: String)
    ensures
        is_pin(r@),
{
    let n: u32 = random_below_million();
    let r = pin_of(n);
    assert(n < 1_000_000 && r@ == pin_text(n));
    r
}

/// All transports of a list of abilities, in order.
pub open spec fn all_transports(caps: Seq<CapabilityModel>) -> Seq<TransportId>
    decreases caps.len(),
{
    if caps.len() == 0 {
        Seq::empty()
    } else {
        all_transports(caps.drop_last()) + caps.last().transports
    }
}

/// All codecs of a list of abilities, in order.
pub open spec fn all_codecs(caps: Seq<CapabilityModel>) -> Seq<CodecId>
    decreases caps.len(),
{
    if caps.len() == 0 {
        Seq::empty()
    } else {
        all_codecs(caps.drop_last()) + caps.last().codecs
    }
}

/// What the negotiation settles for a source with the given abilities: the preferred transport
/// when the source has it or names none at all, else WebRTC when the source has it, else the
/// WebSocket; the first codec of the source, or H.264.
pub open spec fn settled(
    caps: Seq<CapabilityModel>,
    preferred: Option<TransportId>,
    profile: ReliabilityProfile,
) -> Negotiated {
    let transports = all_transports(caps);
    let codecs = all_codecs(caps);
    Negotiated {
        transport: if preferred is Some && (transports.len() == 0 || transports.contains(
            preferred->0,
        )) {
            preferred->0
        } else if transports.contains(TransportId::WebRtc) {
            TransportId::WebRtc
        } else {
            TransportId::Ws
        },
        codec: if codecs.len() > 0 {
            codecs[0]
        } else {
            CodecId::H264
        },
        profile,
    }
}

/// The abilities of a node; none when the node is unknown.
pub open spec fn caps_of(graph: Map<Seq<char>, NodeModel>, id: Seq<char>) -> Seq<CapabilityModel> {
    if graph.dom().contains(id) {
        graph[id].caps
    } else {
        Seq::empty()
    }
}

/// The session that is created on a request.
pub open spec fn new_session(
    graph: Map<Seq<char>, NodeModel>,
    id: Seq<char>,
    src: Seq<char>,
    sinks: Seq<Seq<char>>,
    prefs: &SessionPrefs,
) -> SessionModel {
    SessionModel {
        id,
        title: prefs.title@,
        source: src,
        sinks,
        path: start_path(sinks),
        negotiated: settled(caps_of(graph, src), prefs.preferred_transport, prefs.profile),
        requires_pin: prefs.access_code is Some,
        authorized: prefs.access_code is None,
    }
}

/// The tokens of a map as mathematical values.
pub open spec fn token_models(m: Map<Seq<char>, ShareToken>) -> Map<Seq<char>, TokenModel> {
    m.map_values(|t: ShareToken| t@)
}

/// The tokens that are still valid at the time `now`.
pub open spec fn unexpired(m: Map<Seq<char>, TokenModel>, now: u64) -> Map<Seq<char>, TokenModel> {
    m.restrict(Set::new(|k: Seq<char>| m.dom().contains(k) && !m[k].expired(now)))
}

/// The tokens that were issued, by stream id.
pub struct TokenTable {
    tokens: Table<String, ShareToken>,
}

impl View for TokenTable {
    type V = Map<Seq<char>, TokenModel>;

    closed spec fn view(&self) -> Map<Seq<char>, TokenModel> {
        token_models(self.tokens@)
    }
}

/// The outcome of checking a token at the time `now`.
pub open spec fn token_checked(
    issued: Map<Seq<char>, TokenModel>,
    token: TokenModel,
    now: u64,
    r: Result<(), Error>,
) -> bool {
    if !issued.dom().contains(token.stream_id) {
        r matches Err(Error::Token(t)) && t@ == "凭证无效：会话 "@ + token.stream_id
            + " 未签发凭证"@
    } else if issued[token.stream_id] != token {
        r matches Err(Error::Token(t)) && t@
            == "凭证无效：与签发时不符（可能被篡改或重放）"@
    } else if token.expired(now) {
        r matches Err(Error::Token(t)) && t@ == "凭证已过期"@
    } else {
        r is Ok
    }
}

impl TokenTable {
    pub closed spec fn wf(&self) -> bool {
        self.tokens.wf()
    }

    pub fn new() -> (r: TokenTable)
        ensures
            r.wf(),
            r@ == Map::<Seq<char>, TokenModel>::empty(),
    {
        let r = TokenTable { tokens: Table::new() };
        assert(r@ =~= Map::<Seq<char>, TokenModel>::empty());
        r
    }

    /// Forgets the tokens that are no longer valid.
    fn drop_expired(&mut self, now: u64)
        requires
            old(self).wf(),
        ensures
            final(self).wf(),
            final(self)@ == unexpired(old(self)@, now),
    {
        let ghost all = self.tokens@;
        let mut kept: Table<String, ShareToken> = Table::new();
        let mut more: bool = true;
        while more
            invariant
                self.tokens.wf(),
                kept.wf(),
                forall|k: Seq<char>| #[trigger] all.dom().contains(k) ==> {
                    ||| self.tokens@.dom().contains(k) && self.tokens@[k] == all[k]
                    ||| !self.tokens@.dom().contains(k) && (kept@.dom().contains(k) <==> !all[k]@.expired(
                        now,
                    ))
                },
                forall|k: Seq<char>| #[trigger]
                    self.tokens@.dom().contains(k) ==> all.dom().contains(k) && !kept@.dom().contains(
                        k,
                    ),
                forall|k: Seq<char>| #[trigger]
                    kept@.dom().contains(k) ==> all.dom().contains(k) && kept@[k] == all[k],
                !more ==> self.tokens@ == Map::<Seq<char>, ShareToken>::empty(),
            decreases
                    (if more {
                        1nat
                    } else {
                        0nat
                    }),
                    self.tokens.keys().len(),
        {
            match self.tokens.pop() {
                None => {
                    more = false;
                },
                Some(e) => {
                    let gone: bool = e.1.is_expired(now);
                    if !gone {
                        let _ = kept.insert(e.0, e.1);
                    }
                },
            }
        }
        self.tokens = kept;
        assert(self@ =~= unexpired(old(self)@, now));
    }

    /// Adds a token; the tokens that are no longer valid are forgotten first.
    pub fn issue(&mut self, token: ShareToken, now: u64)
        requires
            old(self).wf(),
        ensures
            final(self).wf(),
            final(self)@ == unexpired(old(self)@, now).insert(token.stream_id@, token@),
    {
        self.drop_expired(now);
        let ghost before = self@;
        let key: String = token.stream_id.clone();
        let _ = self.tokens.insert(key, token);
        assert(self@ =~= before.insert(token.stream_id@, token@));
    }

    /// Forgets the token of a stream.
    pub fn revoke(&mut self, stream_id: &str)
        requires
            old(self).wf(),
        ensures
            final(self).wf(),
            final(self)@ == old(self)@.remove(stream_id@),
    {
        let _ = self.tokens.remove(&stream_id.to_owned());
        assert(self@ =~= old(self)@.remove(stream_id@));
    }

    /// Checks a token: it must have been issued, be the same in every part, and be valid still.
    pub fn verify(&self, token: &ShareToken, now: u64) -> (r: Result<(), Error>)
        requires
            self.wf(),
        ensures
            token_checked(self@, token@, now, r),
    {
        match self.tokens.get(&token.stream_id) {
            None => Err(
                Error::Token(
                    join3("凭证无效：会话 ", token.stream_id.as_str(), " 未签发凭证"),
                ),
            ),
            Some(stored) => {
                assert(self@[token.stream_id@] == stored@);
                if !stored.same(token) {
                    Err(Error::Token("凭证无效：与签发时不符（可能被篡改或重放）".to_owned()))
                } else if stored.is_expired(now) {
                    Err(Error::Token("凭证已过期".to_owned()))
                } else {
                    Ok(())
                }
            },
        }
    }

    /// Whether the data plane may let in who shows this token.
    pub fn validate(&self, token: &ShareToken, now: u64) -> (r: bool)
        requires
            self.wf(),
        ensures
            r <==> self@.dom().contains(token.stream_id@) && self@[token.stream_id@] == token@
                && !token@.expired(now),
    {
        match self.tokens.get(&token.stream_id) {
            None => false,
            Some(stored) => {
                assert(self@[token.stream_id@] == stored@);
                stored.same(token) && !stored.is_expired(now)
            },
        }
    }
}

/// The control plane of a node: the nodes it knows, its sessions, their access codes and tokens,
/// and the data plane that it drives.
pub struct ControlPlane<P: AuthPolicy, D: DataPlaneBackend> {
    pub graph: NodeGraph,
    pub sessions: SessionManager,
    pub auth: P,
    pub share_tokens: TokenTable,
    pub data_plane: Option<D>,
    pub next_id: u64,
}

/// Whether an error reports what the data plane said, behind the given words.
pub open spec fn plane_error(e: Error, words: Seq<char>) -> bool {
    e matches Error::DataPlane(t) && exists|said: Seq<char>| t@ == #[trigger] (words + said)
}

/// What a session build leaves of the access codes.
pub open spec fn code_noted<P: AuthPolicy>(
    pre: &P,
    post: &P,
    id: Seq<char>,
    prefs: &SessionPrefs,
) -> bool {
    match prefs.access_code {
        Some(c) => P::code_set(pre, post, id, Some(c@)),
        None => *post == *pre,
    }
}

impl<P: AuthPolicy, D: DataPlaneBackend> ControlPlane<P, D> {
    pub open spec fn wf(&self) -> bool {
        &&& self.graph.wf()
        &&& self.sessions.wf()
        &&& self.auth.wf()
        &&& self.share_tokens.wf()
        &&& self.data_plane matches Some(d) ==> d.wf()
    }

    /// A control plane without nodes and sessions.
    pub fn new(auth: P) -> (r: Self)
        requires
            auth.wf(),
        ensures
            r.wf(),
            r.graph@ == Map::<Seq<char>, NodeModel>::empty(),
            r.sessions@ == Map::<Seq<char>, SessionModel>::empty(),
            r.share_tokens@ == Map::<Seq<char>, TokenModel>::empty(),
            r.auth == auth,
            r.data_plane is None,
            r.next_id == 1,
    {
        ControlPlane {
            graph: NodeGraph::default(),
            sessions: SessionManager::default(),
            auth,
            share_tokens: TokenTable::new(),
            data_plane: None,
            next_id: 1,
        }
    }

    /// Settles transport and codec for a session of the given source.
    pub fn negotiate(&self, src: &str, prefs: &SessionPrefs) -> (r: Negotiated)
        requires
            self.wf(),
        ensures
            r == settled(caps_of(self.graph@, src@), prefs.preferred_transport, prefs.profile),
    {
        let caps: Vec<CapabilityDescriptor> = match self.graph.node(src) {
            Some(n) => n.caps,
            None => Vec::new(),
        };
        let ghost models = crate::kernel::graph::cap_models(caps@);
        assert(models =~= caps_of(self.graph@, src@));
        let mut transports: Vec<TransportId> = Vec::new();
        let mut codecs: Vec<CodecId> = Vec::new();
        let mut i: usize = 0;
        assert(models.take(0) =~= Seq::<CapabilityModel>::empty());
        while i < caps.len()
            invariant
                models == crate::kernel::graph::cap_models(caps@),
                i <= caps@.len(),
                transports@ == all_transports(models.take(i as int)),
                codecs@ == all_codecs(models.take(i as int)),
            decreases caps.len() - i,
        {
            let mut ts = caps[i].transports.clone();
            assert(ts@ =~= caps@[i as int].transports@);
            let mut cs = caps[i].codecs.clone();
            assert(cs@ =~= caps@[i as int].codecs@);
            transports.append(&mut ts);
            codecs.append(&mut cs);
            proof {
                let next = models.take(i as int + 1);
                assert(next.drop_last() =~= models.take(i as int));
                assert(next.last() == caps@[i as int]@);
            }
            i += 1;
        }
        assert(models.take(caps@.len() as int) =~= models);
        let transport: TransportId = match prefs.preferred_transport {
            Some(t) => {
                if transports.len() == 0 || has_transport(&transports, t) {
                    t
                } else if has_transport(&transports, TransportId::WebRtc) {
                    TransportId::WebRtc
                } else {
                    TransportId::Ws
                }
            },
            None => {
                if has_transport(&transports, TransportId::WebRtc) {
                    TransportId::WebRtc
                } else {
                    TransportId::Ws
                }
            },
        };
        let codec: CodecId = if codecs.len() > 0 {
            codecs[0]
        } else {
            CodecId::H264
        };
        Negotiated { transport, codec, profile: prefs.profile }
    }

    /// Records the session that a request asks for, once the data plane has answered.
    pub fn complete_session(
        &mut self,
        id: &str,
        src: &str,
        sinks: &Vec<String>,
        prefs: &SessionPrefs,
        reply: Result<(), Error>,
    ) -> (r: Result<Session, Error>)
        requires
            old(self).wf(),
        ensures
            final(self).wf(),
            final(self).graph == old(self).graph,
            final(self).auth == old(self).auth,
            final(self).share_tokens == old(self).share_tokens,
            final(self).data_plane == old(self).data_plane,
            final(self).next_id == old(self).next_id,
            match reply {
                Ok(()) => {
                    let s = new_session(old(self).graph@, id@, src@, texts(sinks@), prefs);
                    &&& r matches Ok(got) && got@ == s
                    &&& final(self).sessions@ == old(self).sessions@.insert(id@, s)
                },
                Err(e) => {
                    &&& r matches Err(Error::DataPlane(t)) && t@ == "预授权失败: "@ + e.text()
                    &&& final(self).sessions == old(self).sessions
                },
            },
    {
        match reply {
            Err(e) => Err(
                Error::DataPlane(join2("预授权失败: ", e.to_user_string().as_str())),
            ),
            Ok(()) => {
                let requires_pin: bool = prefs.access_code.is_some();
                let session = Session {
                    id: id.to_owned(),
                    title: prefs.title.clone(),
                    source: src.to_owned(),
                    sinks: clone_strings(sinks),
                    path: Router::default_path(sinks),
                    negotiated: self.negotiate(src, prefs),
                    requires_pin,
                    authorized: !requires_pin,
                };
                let copy = session.clone();
                self.sessions.insert(session);
                Ok(copy)
            },
        }
    }

    /// Creates a session: notes its access code, has the data plane let its stream in, and
    /// records it. A request without a sink is refused.
    pub fn build_session(
        &mut self,
        id: &str,
        src: &str,
        sinks: &Vec<String>,
        prefs: &SessionPrefs,
    ) -> (r: Result<Session, Error>)
        requires
            old(self).wf(),
        ensures
            final(self).wf(),
            final(self).graph == old(self).graph,
            final(self).share_tokens == old(self).share_tokens,
            final(self).next_id == old(self).next_id,
            final(self).data_plane is Some <==> old(self).data_plane is Some,
            sinks@.len() == 0 ==> {
                &&& r matches Err(Error::Message(t)) && t@ == "会话至少需要一个接收端（sinks）"@
                &&& *final(self) == *old(self)
            },
            sinks@.len() > 0 ==> {
                let s = new_session(old(self).graph@, id@, src@, texts(sinks@), prefs);
                &&& code_noted(&old(self).auth, &final(self).auth, id@, prefs)
                &&& r is Ok <==> (old(self).data_plane matches Some(d) ==> d.admits(id@))
                &&& r matches Ok(got) ==> got@ == s && final(self).sessions@
                    == old(self).sessions@.insert(id@, s)
                &&& r matches Err(e) ==> plane_error(e, "预授权失败: "@) && final(self).sessions
                    == old(self).sessions
                &&& r is Ok && old(self).data_plane is Some
                    ==> final(self).data_plane->0.streams() == old(
                    self,
                ).data_plane->0.streams().insert(id@)
            },
    {
        if sinks.len() == 0 {
            return Err(Error::Message("会话至少需要一个接收端（sinks）".to_owned()));
        }
        match &prefs.access_code {
            Some(c) => {
                self.auth.set_code(id, Some(c.as_str()));
            },
            None => {},
        }
        let mut plane: Option<D> = None;
        std::mem::swap(&mut plane, &mut self.data_plane);
        let reply: Result<(), Error> = match plane {
            Some(mut d) => {
                let r = d.authorize_stream(id);
                self.data_plane = Some(d);
                r
            },
            None => Ok(()),
        };
        self.complete_session(id, src, sinks, prefs, reply)
    }

    /// The session with the given id; it is created when there is none yet.
    pub fn ensure_session_with_id(
        &mut self,
        id: &str,
        src: &str,
        sinks: &Vec<String>,
        prefs: &SessionPrefs,
    ) -> (r: Result<Session, Error>)
        requires
            old(self).wf(),
        ensures
            final(self).wf(),
            final(self).graph == old(self).graph,
            final(self).share_tokens == old(self).share_tokens,
            final(self).next_id == old(self).next_id,
            final(self).data_plane is Some <==> old(self).data_plane is Some,
            old(self).sessions@.dom().contains(id@) ==> {
                &&& r matches Ok(got) && got@ == old(self).sessions@[id@]
                &&& *final(self) == *old(self)
            },
            !old(self).sessions@.dom().contains(id@) && sinks@.len() == 0 ==> {
                &&& r matches Err(Error::Message(t)) && t@ == "会话至少需要一个接收端（sinks）"@
                &&& *final(self) == *old(self)
            },
            !old(self).sessions@.dom().contains(id@) && sinks@.len() > 0 ==> {
                let s = new_session(old(self).graph@, id@, src@, texts(sinks@), prefs);
                &&& code_noted(&old(self).auth, &final(self).auth, id@, prefs)
                &&& r is Ok <==> (old(self).data_plane matches Some(d) ==> d.admits(id@))
                &&& r matches Ok(got) ==> got@ == s && final(self).sessions@
                    == old(self).sessions@.insert(id@, s)
                &&& r matches Err(e) ==> plane_error(e, "预授权失败: "@) && final(self).sessions
                    == old(self).sessions
                &&& r is Ok && old(self).data_plane is Some
                    ==> final(self).data_plane->0.streams() == old(
                    self,
                ).data_plane->0.streams().insert(id@)
            },
    {
        match self.sessions.get(id) {
            Some(s) => Ok(s),
            None => self.build_session(id, src, sinks, prefs),
        }
    }

    /// Whether there is such a session.
    pub fn has_session(&self, id: &str) -> (r: bool)
        requires
            self.wf(),
        ensures
            r == self.sessions@.dom().contains(id@),
    {
        self.sessions.contains(id)
    }

    /// Gives the access code of a session, which opens it to control operations.
    pub fn authorize(&mut self, id: &str, access_code: Option<&str>) -> (r: Result<(), Error>)
        requires
            old(self).wf(),
        ensures
            final(self).wf(),
            final(self).graph == old(self).graph,
            final(self).auth == old(self).auth,
            final(self).share_tokens == old(self).share_tokens,
            final(self).data_plane == old(self).data_plane,
            final(self).next_id == old(self).next_id,
            match old(self).auth.verdict(id@, crate::kernel::auth::opt_text(access_code)) {
                Err(AuthError::CodeRequired) => r == Err::<(), Error>(Error::PinRequired)
                    && final(self).sessions@ == old(self).sessions@,
                Err(AuthError::CodeMismatch) => r == Err::<(), Error>(Error::PinMismatch)
                    && final(self).sessions@ == old(self).sessions@,
                Ok(()) => if old(self).sessions@.dom().contains(id@) {
                    &&& r is Ok
                    &&& final(self).sessions@ == old(self).sessions@.insert(
                        id@,
                        SessionModel { authorized: true, ..old(self).sessions@[id@] },
                    )
                } else {
                    &&& r matches Err(Error::SessionNotFound(t)) && t@ == id@
                    &&& final(self).sessions@ == old(self).sessions@
                },
            },
    {
        match self.auth.authorize(id, access_code) {
            Err(e) => Err(Error::from(e)),
            Ok(()) => self.sessions.mark_authorized(id),
        }
    }

    /// Removes a session with its access code and its token, and has the data plane let its
    /// stream in no longer. With `check_auth` only an open session can be removed.
    fn teardown_internal(&mut self, id: &str, check_auth: bool) -> (r: Result<(), Error>)
        requires
            old(self).wf(),
        ensures
            final(self).wf(),
            final(self).graph == old(self).graph,
            final(self).next_id == old(self).next_id,
            final(self).data_plane is Some <==> old(self).data_plane is Some,
            check_auth && !open_session(old(self).sessions@, id@) ==> {
                &&& crate::kernel::session::control_granted(old(self).sessions@, id@, r)
                &&& *final(self) == *old(self)
            },
            !check_auth || open_session(old(self).sessions@, id@) ==> torn_down(
                old(self),
                final(self),
                id@,
                r,
            ),
    {
        if check_auth {
            match self.sessions.require_authorized(id) {
                Err(e) => {
                    return Err(e);
                },
                Ok(()) => {},
            }
        }
        let _ = self.sessions.remove(id);
        self.auth.set_code(id, None);
        self.share_tokens.revoke(id);
        let mut plane: Option<D> = None;
        std::mem::swap(&mut plane, &mut self.data_plane);
        match plane {
            Some(mut d) => {
                let r = d.revoke_stream(id);
                self.data_plane = Some(d);
                match r {
                    Ok(()) => Ok(()),
                    Err(e) => Err(
                        Error::DataPlane(join2("撤销失败: ", e.to_user_string().as_str())),
                    ),
                }
            },
            None => Ok(()),
        }
    }

    /// Removes a session on request: it must exist and be open to control operations.
    pub fn teardown(&mut self, id: &str) -> (r: Result<(), Error>)
        requires
            old(self).wf(),
        ensures
            final(self).wf(),
            final(self).graph == old(self).graph,
            final(self).next_id == old(self).next_id,
            final(self).data_plane is Some <==> old(self).data_plane is Some,
            !open_session(old(self).sessions@, id@) ==> {
                &&& crate::kernel::session::control_granted(old(self).sessions@, id@, r)
                &&& *final(self) == *old(self)
            },
            open_session(old(self).sessions@, id@) ==> torn_down(old(self), final(self), id@, r),
    {
        self.teardown_internal(id, true)
    }

    /// Removes a session at the end of its stream, whatever its access code.
    pub fn force_teardown(&mut self, id: &str) -> (r: Result<(), Error>)
        requires
            old(self).wf(),
        ensures
            final(self).wf(),
            final(self).graph == old(self).graph,
            final(self).next_id == old(self).next_id,
            final(self).data_plane is Some <==> old(self).data_plane is Some,
            torn_down(old(self), final(self), id@, r),
    {
        self.teardown_internal(id, false)
    }

    /// Issues the token of a session with the given pin.
    pub fn issue_token(
        &mut self,
        session_id: &str,
        media: Vec<MediaKind>,
        ttl_secs: u64,
        now: u64,
        pin: String,
    ) -> (r: Result<ShareToken, Error>)
        requires
            old(self).wf(),
        ensures
            final(self).wf(),
            final(self).graph == old(self).graph,
            final(self).sessions == old(self).sessions,
            final(self).auth == old(self).auth,
            final(self).data_plane == old(self).data_plane,
            final(self).next_id == old(self).next_id,
            !old(self).sessions@.dom().contains(session_id@) ==> {
                &&& r matches Err(Error::SessionNotFound(t)) && t@ == session_id@
                &&& *final(self) == *old(self)
            },
            old(self).sessions@.dom().contains(session_id@) ==> {
                let t = new_token(session_id@, pin@, ttl_secs, now, media@);
                &&& r matches Ok(got) && got@ == t
                &&& final(self).share_tokens@ == unexpired(old(self).share_tokens@, now).insert(
                    session_id@,
                    t,
                )
            },
    {
        if !self.has_session(session_id) {
            return Err(Error::SessionNotFound(session_id.to_owned()));
        }
        let token = ShareToken {
            v: TOKEN_VERSION,
            stream_id: session_id.to_owned(),
            pin,
            expires_at: now.saturating_add(ttl_secs),
            media,
        };
        let copy = token.clone();
        self.share_tokens.issue(token, now);
        Ok(copy)
    }

    /// Issues a token with a random pin for a session, valid for `ttl_secs` seconds from `now`.
    pub fn create_share_token(
        &mut self,
        session_id: &str,
        media: Vec<MediaKind>,
        ttl_secs: u64,
        now: u64,
    ) -> (r: Result<ShareToken, Error>)
        requires
            old(self).wf(),
        ensures
            final(self).wf(),
            final(self).graph == old(self).graph,
            final(self).sessions == old(self).sessions,
            final(self).auth == old(self).auth,
            final(self).data_plane == old(self).data_plane,
            final(self).next_id == old(self).next_id,
            !old(self).sessions@.dom().contains(session_id@) ==> {
                &&& r matches Err(Error::SessionNotFound(t)) && t@ == session_id@
                &&& final(self).share_tokens == old(self).share_tokens
            },
            old(self).sessions@.dom().contains(session_id@) ==> {
                &&& r matches Ok(got) && is_pin(got@.pin) && got@ == new_token(
                    session_id@,
                    got@.pin,
                    ttl_secs,
                    now,
                    media@,
                ) && final(self).share_tokens@ == unexpired(old(self).share_tokens@, now).insert(
                    session_id@,
                    got@,
                )
            },
    {
        let pin = random_pin();
        self.issue_token(session_id, media, ttl_secs, now, pin)
    }

    /// Checks a token at the time `now`.
    pub fn verify_share_token(&self, token: &ShareToken, now: u64) -> (r: Result<(), Error>)
        requires
            self.wf(),
        ensures
            token_checked(self.share_tokens@, token@, now, r),
    {
        self.share_tokens.verify(token, now)
    }

    /// Creates a session of this node and issues a token for it; `ttl_secs` is ten minutes when
    /// it is not given.
    pub fn issue_share_token_for(
        &mut self,
        title: String,
        media: Vec<MediaKind>,
        ttl_secs: Option<u64>,
        now: u64,
    ) -> (r: Result<ShareTokenView, Error>)
        requires
            old(self).wf(),
        ensures
            final(self).wf(),
            final(self).graph == old(self).graph,
            final(self).auth == old(self).auth,
            final(self).data_plane is Some <==> old(self).data_plane is Some,
            final(self).next_id == old(self).next_id.wrapping_add(1),
            ({
                let id = "sess-"@ + hex(old(self).next_id as nat);
                let ttl = match ttl_secs {
                    Some(t) => t,
                    None => 600u64,
                };
                &&& r is Ok <==> (old(self).data_plane matches Some(d) ==> d.admits(id))
                &&& r matches Ok(got) ==> {
                    let t = new_token(id, got.pin@, ttl, now, media@);
                    &&& is_pin(got.pin@)
                    &&& got.stream_id@ == id
                    &&& got.expires_at == t.expires_at
                    &&& got.token@ == t.text()
                    &&& final(self).share_tokens@ == unexpired(
                        old(self).share_tokens@,
                        now,
                    ).insert(id, t)
                    &&& final(self).sessions@ == old(self).sessions@.insert(
                        id,
                        local_session(old(self).graph@, id, title@),
                    )
                    &&& old(self).data_plane is Some ==> final(self).data_plane->0.streams() == old(
                        self,
                    ).data_plane->0.streams().insert(id)
                }
                &&& r matches Err(e) ==> {
                    &&& plane_error(e, "预授权失败: "@)
                    &&& final(self).sessions == old(self).sessions
                    &&& final(self).share_tokens == old(self).share_tokens
                }
            }),
    {
        let n: u64 = self.next_id;
        self.next_id = n.wrapping_add(1);
        let id: String = join2("sess-", hexadecimal(n).as_str());
        let mut sinks: Vec<String> = Vec::new();
        sinks.push("local".to_owned());
        let prefs = SessionPrefs {
            profile: ReliabilityProfile::Lossy,
            preferred_transport: None,
            access_code: None,
            title,
        };
        assert(texts(sinks@) =~= seq!["local"@]);
        assert(new_session(self.graph@, id@, "local"@, texts(sinks@), &prefs) =~= local_session(
            self.graph@,
            id@,
            title@,
        ));
        match self.build_session(id.as_str(), "local", &sinks, &prefs) {
            Err(e) => Err(e),
            Ok(session) => {
                let ttl: u64 = match ttl_secs {
                    Some(t) => t,
                    None => 600,
                };
                match self.create_share_token(session.id.as_str(), media, ttl, now) {
                    Err(e) => Err(e),
                    Ok(token) => Ok(
                        ShareTokenView {
                            token: token.to_token_string(),
                            stream_id: token.stream_id,
                            pin: token.pin,
                            expires_at: token.expires_at,
                        },
                    ),
                }
            },
        }
    }
}

/// The token that is issued at the time `now`.
pub open spec fn new_token(
    stream_id: Seq<char>,
    pin: Seq<char>,
    ttl_secs: u64,
    now: u64,
    media: Seq<MediaKind>,
) -> TokenModel {
    TokenModel {
        v: TOKEN_VERSION,
        stream_id,
        pin,
        expires_at: if now + ttl_secs > u64::MAX {
            u64::MAX
        } else {
            (now + ttl_secs) as u64
        },
        media,
    }
}

/// A session of this node with itself, without an access code.
pub open spec fn local_session(
    graph: Map<Seq<char>, NodeModel>,
    id: Seq<char>,
    title: Seq<char>,
) -> SessionModel {
    SessionModel {
        id,
        title,
        source: "local"@,
        sinks: seq!["local"@],
        path: start_path(seq!["local"@]),
        negotiated: settled(caps_of(graph, "local"@), None, ReliabilityProfile::Lossy),
        requires_pin: false,
        authorized: true,
    }
}

/// Whether a stream of the given name is let in: it has a session already, or the data plane admits
/// it.
pub open spec fn admitted<P: AuthPolicy, D: DataPlaneBackend>(
    pre: &ControlPlane<P, D>,
    id: Seq<char>,
) -> bool {
    pre.sessions@.dom().contains(id) || (pre.data_plane matches Some(d) ==> d.admits(id))
}

/// What making sure of a session of this node does: nothing when there is one of that name, else it
/// is created if the data plane lets its stream in.
pub open spec fn session_ensured<P: AuthPolicy, D: DataPlaneBackend>(
    pre: &ControlPlane<P, D>,
    post: &ControlPlane<P, D>,
    id: Seq<char>,
    title: Seq<char>,
) -> bool {
    if pre.sessions@.dom().contains(id) {
        *post == *pre
    } else {
        &&& post.graph == pre.graph
        &&& post.auth == pre.auth
        &&& post.share_tokens == pre.share_tokens
        &&& post.next_id == pre.next_id
        &&& post.data_plane is Some <==> pre.data_plane is Some
        &&& if admitted(pre, id) {
            &&& post.sessions@ == pre.sessions@.insert(id, local_session(pre.graph@, id, title))
            &&& pre.data_plane is Some ==> post.data_plane->0.streams()
                == pre.data_plane->0.streams().insert(id)
        } else {
            post.sessions == pre.sessions
        }
    }
}

/// What issuing a token for a new session of this node does.
pub open spec fn token_issued<P: AuthPolicy, D: DataPlaneBackend>(
    pre: &ControlPlane<P, D>,
    post: &ControlPlane<P, D>,
    title: Seq<char>,
    token: TokenModel,
    now: u64,
) -> bool {
    let id = token.stream_id;
    &&& id == "sess-"@ + hex(pre.next_id as nat)
    &&& is_pin(token.pin)
    &&& post.graph == pre.graph
    &&& post.auth == pre.auth
    &&& post.next_id == pre.next_id.wrapping_add(1)
    &&& post.sessions@ == pre.sessions@.insert(id, local_session(pre.graph@, id, title))
    &&& post.share_tokens@ == unexpired(pre.share_tokens@, now).insert(id, token)
    &&& post.data_plane is Some <==> pre.data_plane is Some
    &&& pre.data_plane is Some ==> post.data_plane->0.streams()
        == pre.data_plane->0.streams().insert(id)
}

/// What a token that was not issued leaves behind: the number of the session is used up.
pub open spec fn token_refused<P: AuthPolicy, D: DataPlaneBackend>(
    pre: &ControlPlane<P, D>,
    post: &ControlPlane<P, D>,
) -> bool {
    &&& post.graph == pre.graph
    &&& post.auth == pre.auth
    &&& post.next_id == pre.next_id.wrapping_add(1)
    &&& post.sessions == pre.sessions
    &&& post.share_tokens == pre.share_tokens
    &&& post.data_plane is Some <==> pre.data_plane is Some
}

/// What a teardown does to a session, its access code, its token and its stream.
pub open spec fn torn_down<P: AuthPolicy, D: DataPlaneBackend>(
    pre: &ControlPlane<P, D>,
    post: &ControlPlane<P, D>,
    id: Seq<char>,
    r: Result<(), Error>,
) -> bool {
    &&& post.sessions@ == pre.sessions@.remove(id)
    &&& P::code_set(&pre.auth, &post.auth, id, None)
    &&& post.share_tokens@ == pre.share_tokens@.remove(id)
    &&& r is Ok <==> (pre.data_plane matches Some(d) ==> d.releases(id))
    &&& r matches Err(e) ==> plane_error(e, "撤销失败: "@)
    &&& r is Ok && pre.data_plane is Some ==> post.data_plane->0.streams()
        == pre.data_plane->0.streams().remove(id)
}

/// Whether there is such a session and it is open to control operations.
pub open spec fn open_session(sessions: Map<Seq<char>, SessionModel>, id: Seq<char>) -> bool {
    sessions.dom().contains(id) && sessions[id].open_to_control()
}

fn has_transport(v: &Vec<TransportId>, t: TransportId) -> (r: bool)
    ensures
        r == v@.contains(t),
{
    let mut i: usize = 0;
    while i < v.len()
        invariant
            i <= v@.len(),
            forall|j: int| 0 <= j < i ==> v@[j] != t,
        decreases v.len() - i,
    {
        if v[i] == t {
            assert(v@[i as int] == t);
            return true;
        }
        i += 1;
    }
    false
}

/// A token is accepted right after it was issued, unless it is valid for no time at all or the
/// clock stands at its end.
pub proof fn law_issued_token_is_valid(
    issued: Map<Seq<char>, TokenModel>,
    stream_id: Seq<char>,
    pin: Seq<char>,
    ttl_secs: u64,
    now: u64,
    media: Seq<MediaKind>,
    r: Result<(), Error>,
)
    requires
        ttl_secs > 0,
        now < u64::MAX,
        token_checked(
            unexpired(issued, now).insert(
                stream_id,
                new_token(stream_id, pin, ttl_secs, now, media),
            ),
            new_token(stream_id, pin, ttl_secs, now, media),
            now,
            r,
        ),
    ensures
        r is Ok,
{
}

/// A token that is valid for no time is refused at once.
pub proof fn law_zero_ttl_is_expired(
    issued: Map<Seq<char>, TokenModel>,
    stream_id: Seq<char>,
    pin: Seq<char>,
    now: u64,
    media: Seq<MediaKind>,
    r: Result<(), Error>,
)
    requires
        token_checked(issued, new_token(stream_id, pin, 0, now, media), now, r),
    ensures
        r is Err,
{
}

/// Only the token that was issued last for a stream is accepted: any other one is refused.
pub proof fn law_reissue_invalidates(
    issued: Map<Seq<char>, TokenModel>,
    fresh: TokenModel,
    shown: TokenModel,
    now: u64,
    r: Result<(), Error>,
)
    requires
        shown.stream_id == fresh.stream_id,
        shown != fresh,
        token_checked(issued.insert(fresh.stream_id, fresh), shown, now, r),
    ensures
        r is Err,
{
}

/// A teardown takes the token of the session with it: it is refused from then on.
pub proof fn law_teardown_invalidates_token<P: AuthPolicy, D: DataPlaneBackend>(
    pre: ControlPlane<P, D>,
    post: ControlPlane<P, D>,
    id: Seq<char>,
    token: TokenModel,
    now: u64,
    down: Result<(), Error>,
    r: Result<(), Error>,
)
    requires
        torn_down(&pre, &post, id, down),
        token.stream_id == id,
        token_checked(post.share_tokens@, token, now, r),
    ensures
        r is Err,
        !post.sessions@.dom().contains(id),
{
}

/// Whether every stream that may come in has a session.
pub open spec fn streams_have_sessions<P: AuthPolicy, D: DataPlaneBackend>(
    c: &ControlPlane<P, D>,
) -> bool {
    c.data_plane matches Some(d) ==> forall|id: Seq<char>| #[trigger]
        d.streams().contains(id) ==> c.sessions@.dom().contains(id)
}

/// The session comes before the stream: where every stream that may come in has a session, this
/// stays so when a session is made sure of, and the new session's stream may come in.
pub proof fn law_session_before_stream<P: AuthPolicy, D: DataPlaneBackend>(
    pre: ControlPlane<P, D>,
    post: ControlPlane<P, D>,
    id: Seq<char>,
    title: Seq<char>,
)
    requires
        streams_have_sessions(&pre),
        admitted(&pre, id),
        session_ensured(&pre, &post, id, title),
    ensures
        streams_have_sessions(&post),
        post.sessions@.dom().contains(id),
        !pre.sessions@.dom().contains(id) && post.data_plane is Some
            ==> post.data_plane->0.streams().contains(id),
{
}

/// The stream goes with the session: after a teardown that the data plane carried out, the stream
/// may not come in any more, and every other stream still has a session.
pub proof fn law_stream_goes_with_session<P: AuthPolicy, D: DataPlaneBackend>(
    pre: ControlPlane<P, D>,
    post: ControlPlane<P, D>,
    id: Seq<char>,
    down: Result<(), Error>,
)
    requires
        streams_have_sessions(&pre),
        torn_down(&pre, &post, id, down),
        post.data_plane is Some <==> pre.data_plane is Some,
        down is Ok,
    ensures
        streams_have_sessions(&post),
        post.data_plane matches Some(d) ==> !d.streams().contains(id),
{
}

/// A session with an access code is closed to control operations until the code was given; one
/// without is open from the start.
pub proof fn law_pin_gates_control(
    graph: Map<Seq<char>, NodeModel>,
    id: Seq<char>,
    src: Seq<char>,
    sinks: Seq<Seq<char>>,
    prefs: &SessionPrefs,
)
    ensures
        new_session(graph, id, src, sinks, prefs).open_to_control() <==> prefs.access_code is None,
        (SessionModel { authorized: true, ..new_session(graph, id, src, sinks, prefs) }).open_to_control(),
{
}

/// A token check accepts exactly what the data plane's own check accepts.
pub proof fn law_checks_agree(
    issued: Map<Seq<char>, TokenModel>,
    token: TokenModel,
    now: u64,
    r: Result<(), Error>,
)
    requires
        token_checked(issued, token, now, r),
    ensures
        r is Ok <==> issued.dom().contains(token.stream_id) && issued[token.stream_id] == token
            && !token.expired(now),
{
}

/// Every pin has six digits.
pub proof fn law_pin_has_six_digits(n: u32)
    requires
        n < 1_000_000,
    ensures
        pin_text(n).len() == 6,
        forall|i: int| 0 <= i < 6 ==> '0' <= #[trigger] pin_text(n)[i] && pin_text(n)[i] <= '9',
{
    let d = dec(n as nat);
    assert(ten_to(6) == 1_000_000) by {
        reveal_with_fuel(ten_to, 7);
    }
    lemma_dec_len(n as nat, 6);
    assert forall|i: int| 0 <= i < 6 implies '0' <= #[trigger] pin_text(n)[i] && pin_text(n)[i]
        <= '9' by {
        if i >= 6 - d.len() {
            assert(pin_text(n)[i] == d[i - (6 - d.len())]);
        }
    }
}

/// Ten to the power of `k`.
spec fn ten_to(k: nat) -> nat
    decreases k,
{
    if k == 0 {
        1
    } else {
        10 * ten_to((k - 1) as nat)
    }
}

proof fn lemma_dec_len(n: nat, k: nat)
    requires
        1 <= k,
        n < ten_to(k),
    ensures
        1 <= dec(n).len() <= k,
        forall|i: int| 0 <= i < dec(n).len() ==> '0' <= #[trigger] dec(n)[i] && dec(n)[i] <= '9',
    decreases k,
{
    if n >= 10 {
        assert(k >= 2) by {
            assert(ten_to(0) == 1);
            assert(ten_to(1) == 10);
        }
        lemma_dec_len(n / 10, (k - 1) as nat);
    }
}

/// A token that was issued for a session is accepted until its time is over, and not from then on.
/// It names the session and the media that it was issued for.
pub proof fn law_token_is_accepted_until_it_ends<P: AuthPolicy, D: DataPlaneBackend>(
    c: &mut ControlPlane<P, D>,
    session_id: &str,
    media: Vec<MediaKind>,
    ttl_secs: u64,
    now: u64,
    r: Result<ShareToken, Error>,
    token: &ShareToken,
    later: u64,
    checked: Result<(), Error>,
    let_in: bool,
)
    requires
        call_ensures(
            ControlPlane::<P, D>::create_share_token,
            (c, session_id, media, ttl_secs, now),
            r,
        ),
        old(c).sessions@.dom().contains(session_id@),
        now + ttl_secs <= u64::MAX,
        r == Ok::<ShareToken, Error>(*token),
        call_ensures(
            ControlPlane::<P, D>::verify_share_token,
            (&*final(c), token, later),
            checked,
        ),
        call_ensures(TokenTable::validate, (&final(c).share_tokens, token, later), let_in),
    ensures
        token.stream_id@ == session_id@,
        token.media@ == media@,
        token.expires_at == now + ttl_secs,
        checked is Ok <==> later < now + ttl_secs,
        let_in <==> later < now + ttl_secs,
{
}

/// A token that differs from the one that was issued is not accepted, be it in its pin, its end, its
/// media or its version; and a token is issued for a session that is there, and for no other.
pub proof fn law_altered_token_is_refused<P: AuthPolicy, D: DataPlaneBackend>(
    c: &mut ControlPlane<P, D>,
    session_id: &str,
    media: Vec<MediaKind>,
    ttl_secs: u64,
    now: u64,
    r: Result<ShareToken, Error>,
    shown: &ShareToken,
    later: u64,
    checked: Result<(), Error>,
)
    requires
        call_ensures(
            ControlPlane::<P, D>::create_share_token,
            (c, session_id, media, ttl_secs, now),
            r,
        ),
        call_ensures(
            ControlPlane::<P, D>::verify_share_token,
            (&*final(c), shown, later),
            checked,
        ),
    ensures
        r is Ok <==> old(c).sessions@.dom().contains(session_id@),
        r matches Ok(t) ==> (shown.stream_id@ == t.stream_id@ && (shown.pin@ != t.pin@
            || shown.expires_at != t.expires_at || shown.media@ != t.media@ || shown.v != t.v)
            ==> checked is Err),
{
}

/// A token is one-time: once its session is taken down it is refused.
pub proof fn law_token_goes_with_its_session<P: AuthPolicy, D: DataPlaneBackend>(
    c: &mut ControlPlane<P, D>,
    id: &str,
    r: Result<(), Error>,
    token: &ShareToken,
    now: u64,
    checked: Result<(), Error>,
    there: bool,
)
    requires
        call_ensures(ControlPlane::<P, D>::force_teardown, (c, id), r),
        token.stream_id@ == id@,
        call_ensures(ControlPlane::<P, D>::verify_share_token, (&*final(c), token, now), checked),
        call_ensures(ControlPlane::<P, D>::has_session, (&*final(c), id), there),
    ensures
        checked is Err,
        !there,
        old(c).data_plane is None ==> r is Ok,
{
}

/// A session with an access code is controlled by who knows the code: without it the session cannot
/// be taken down, a wrong code is refused, and with the right one it can.
pub proof fn law_access_code_guards_the_session<D: DataPlaneBackend>(
    c: &mut ControlPlane<PinAuthPolicy, D>,
    id: &str,
    src: &str,
    sinks: &Vec<String>,
    prefs: &SessionPrefs,
    code: &str,
    wrong: &str,
    made: Result<Session, Error>,
    early: &mut ControlPlane<PinAuthPolicy, D>,
    refused: Result<(), Error>,
    tried: &mut ControlPlane<PinAuthPolicy, D>,
    mismatch: Result<(), Error>,
    opened: &mut ControlPlane<PinAuthPolicy, D>,
    given: Result<(), Error>,
    ended: &mut ControlPlane<PinAuthPolicy, D>,
    down: Result<(), Error>,
)
    requires
        old(c).data_plane is None,
        sinks@.len() > 0,
        prefs.access_code matches Some(x) && x@ == code@,
        wrong@ != code@,
        call_ensures(
            ControlPlane::<PinAuthPolicy, D>::build_session,
            (c, id, src, sinks, prefs),
            made,
        ),
        *old(early) == *final(c),
        call_ensures(ControlPlane::<PinAuthPolicy, D>::teardown, (early, id), refused),
        *old(tried) == *final(early),
        call_ensures(
            ControlPlane::<PinAuthPolicy, D>::authorize,
            (tried, id, Some(wrong)),
            mismatch,
        ),
        *old(opened) == *final(tried),
        call_ensures(ControlPlane::<PinAuthPolicy, D>::authorize, (opened, id, Some(code)), given),
        *old(ended) == *final(opened),
        call_ensures(ControlPlane::<PinAuthPolicy, D>::teardown, (ended, id), down),
    ensures
        made matches Ok(s) && s.id@ == id@ && s.requires_pin && !s.authorized,
        refused matches Err(Error::PinRequired),
        mismatch matches Err(Error::PinMismatch),
        given is Ok,
        down is Ok,
        !final(ended).sessions@.dom().contains(id@),
{
    assert(final(c).auth@.dom().contains(id@));
    assert(final(tried).sessions@.dom().contains(id@));
    assert(final(opened).sessions@[id@].open_to_control());
    assert(final(opened).data_plane is None);
}

/// A session that is built says what was asked for: its title, source, sinks and profile, and that it
/// needs a code when one was set. It is there afterwards. A direct way leads to a single sink.
pub proof fn law_built_session_says_what_was_asked<P: AuthPolicy, D: DataPlaneBackend>(
    c: &mut ControlPlane<P, D>,
    id: &str,
    src: &str,
    sinks: &Vec<String>,
    prefs: &SessionPrefs,
    made: Result<Session, Error>,
    kept: Option<Session>,
    settled_on: Negotiated,
)
    requires
        old(c).data_plane is None,
        sinks@.len() > 0,
        call_ensures(ControlPlane::<P, D>::build_session, (c, id, src, sinks, prefs), made),
        call_ensures(SessionManager::get, (&final(c).sessions, id), kept),
        call_ensures(ControlPlane::<P, D>::negotiate, (&*old(c), src, prefs), settled_on),
    ensures
        made matches Ok(s) && ({
            &&& s.id@ == id@
            &&& s.title@ == prefs.title@
            &&& s.source@ == src@
            &&& texts(s.sinks@) == texts(sinks@)
            &&& s.requires_pin <==> prefs.access_code is Some
            &&& s.authorized <==> prefs.access_code is None
            &&& s.negotiated == settled_on
            &&& s.negotiated.profile == prefs.profile
            &&& sinks@.len() == 1 ==> (s.path matches RoutePath::Direct { node } && node@
                == sinks@[0]@)
            &&& sinks@.len() > 1 ==> (s.path matches RoutePath::Mesh { nodes } && texts(nodes@)
                == texts(sinks@))
            &&& kept matches Some(k) && k@ == s@
        }),
{
    assert(texts(sinks@).len() == sinks@.len());
    if sinks@.len() == 1 {
        assert(texts(sinks@)[0] == sinks@[0]@);
    }
}

/// What is settled for a session fits its source: the wanted transport when the source has it, or
/// says nothing about transports; else WebRTC when the source has it, and the WebSocket when it has
/// not. The codec is the first one that the source names.
pub proof fn law_settled_transport_fits_the_source<P: AuthPolicy, D: DataPlaneBackend>(
    c: &ControlPlane<P, D>,
    src: &str,
    prefs: &SessionPrefs,
    node: Option<NodeInfo>,
    r: Negotiated,
)
    requires
        call_ensures(ControlPlane::<P, D>::negotiate, (c, src, prefs), r),
        call_ensures(NodeGraph::node, (&c.graph, src), node),
    ensures
        r.profile == prefs.profile,
        node is None ==> r.codec is H264 && (prefs.preferred_transport is None ==> r.transport
            is Ws) && (prefs.preferred_transport matches Some(t) ==> r.transport == t),
        node matches Some(n) ==> {
            &&& forall|i: int, t: TransportId|
                prefs.preferred_transport == Some(t) && 0 <= i < n.caps@.len()
                    && #[trigger] n.caps@[i].transports@.contains(t) ==> r.transport == t
            &&& prefs.preferred_transport is None && (exists|i: int|
                0 <= i < n.caps@.len() && #[trigger] n.caps@[i].transports@.contains(
                    TransportId::WebRtc,
                )) ==> r.transport is WebRtc
            &&& prefs.preferred_transport is None && (forall|i: int|
                0 <= i < n.caps@.len() ==> !(#[trigger] n.caps@[i].transports@.contains(
                    TransportId::WebRtc,
                ))) ==> r.transport is Ws
            &&& n.caps@.len() > 0 && n.caps@[0].codecs@.len() > 0 ==> r.codec
                == n.caps@[0].codecs@[0]
        },
{
    if node is Some {
        let n = node->0;
        let caps = n@.caps;
        lemma_all_transports(caps);
        assert forall|i: int| 0 <= i < n.caps@.len() implies caps[i].transports
            == #[trigger] n.caps@[i].transports@ by {
            assert(caps[i] == n.caps@[i]@);
        }
        assert forall|i: int, t: TransportId|
            prefs.preferred_transport == Some(t) && 0 <= i < n.caps@.len()
                && #[trigger] n.caps@[i].transports@.contains(t) implies r.transport == t by {
            assert(caps[i].transports.contains(t));
            assert(all_transports(caps).contains(t));
        }
        if prefs.preferred_transport is None {
            if exists|i: int|
                0 <= i < n.caps@.len() && #[trigger] n.caps@[i].transports@.contains(
                    TransportId::WebRtc,
                ) {
                let i = choose|i: int|
                    0 <= i < n.caps@.len() && #[trigger] n.caps@[i].transports@.contains(
                        TransportId::WebRtc,
                    );
                assert(caps[i].transports.contains(TransportId::WebRtc));
            } else if all_transports(caps).contains(TransportId::WebRtc) {
                let i = choose|i: int|
                    0 <= i < caps.len() && (#[trigger] caps[i]).transports.contains(
                        TransportId::WebRtc,
                    );
                assert(n.caps@[i].transports@.contains(TransportId::WebRtc));
            }
        }
        if n.caps@.len() > 0 && n.caps@[0].codecs@.len() > 0 {
            assert(caps[0] == n.caps@[0]@);
            lemma_first_codec(caps);
        }
    }
}

proof fn lemma_all_transports(caps: Seq<CapabilityModel>)
    ensures
        forall|t: TransportId| #[trigger]
            all_transports(caps).contains(t) <==> exists|i: int|
                0 <= i < caps.len() && (#[trigger] caps[i]).transports.contains(t),
    decreases caps.len(),
{
    if caps.len() > 0 {
        let p = caps.drop_last();
        lemma_all_transports(p);
        let last = caps.last().transports;
        assert forall|t: TransportId| #[trigger] all_transports(caps).contains(t) <==> exists|i: int|
            0 <= i < caps.len() && (#[trigger] caps[i]).transports.contains(t) by {
            let all = all_transports(caps);
            let before = all_transports(p);
            if all.contains(t) {
                let j = choose|j: int| 0 <= j < all.len() && all[j] == t;
                if j < before.len() {
                    assert(before[j] == t);
                    assert(before.contains(t));
                    let i = choose|i: int|
                        0 <= i < p.len() && (#[trigger] p[i]).transports.contains(t);
                    assert(caps[i].transports.contains(t));
                } else {
                    assert(last[j - before.len()] == t);
                    assert(caps[caps.len() - 1].transports.contains(t));
                }
            }
            if exists|i: int| 0 <= i < caps.len() && (#[trigger] caps[i]).transports.contains(t) {
                let i = choose|i: int|
                    0 <= i < caps.len() && (#[trigger] caps[i]).transports.contains(t);
                if i < p.len() {
                    assert(p[i].transports.contains(t));
                    assert(before.contains(t));
                    let j = choose|j: int| 0 <= j < before.len() && before[j] == t;
                    assert(all[j] == t);
                } else {
                    let j = choose|j: int| 0 <= j < last.len() && last[j] == t;
                    assert(all[before.len() + j] == t);
                }
            }
        }
    }
}

proof fn lemma_first_codec(caps: Seq<CapabilityModel>)
    requires
        caps.len() > 0,
        caps[0].codecs.len() > 0,
    ensures
        all_codecs(caps).len() > 0,
        all_codecs(caps)[0] == caps[0].codecs[0],
    decreases caps.len(),
{
    if caps.len() == 1 {
        reveal_with_fuel(all_codecs, 2);
        assert(caps.drop_last().len() == 0);
        assert(caps.last() == caps[0]);
        assert(all_codecs(caps) =~= caps[0].codecs);
    } else {
        lemma_first_codec(caps.drop_last());
    }
}

/// Pins have six digits, and a number is told from its pin.
pub proof fn law_pin_is_the_number(n: u32, r: String)
    requires
        n < 1_000_000,
        call_ensures(pin_of, (n,), r),
    ensures
        r@.len() == 6,
        forall|i: int| 0 <= i < 6 ==> '0' <= #[trigger] r@[i] && r@[i] <= '9',
        n >= 100_000 ==> r@ == dec(n as nat),
{
    law_pin_has_six_digits(n);
    if n >= 100_000 {
        lemma_six_digits(n as nat);
    }
}

proof fn lemma_six_digits(n: nat)
    requires
        100_000 <= n < 1_000_000,
    ensures
        dec(n).len() == 6,
{
    reveal_with_fuel(numeral, 7);
}

/// A session that is there is used again: making sure of it a second time changes nothing.
pub proof fn law_session_is_used_again<P: AuthPolicy, D: DataPlaneBackend>(
    c: &mut ControlPlane<P, D>,
    id: &str,
    src: &str,
    sinks: &Vec<String>,
    prefs: &SessionPrefs,
    r: Result<Session, Error>,
    again: &mut ControlPlane<P, D>,
    src2: &str,
    sinks2: &Vec<String>,
    prefs2: &SessionPrefs,
    r2: Result<Session, Error>,
)
    requires
        call_ensures(
            ControlPlane::<P, D>::ensure_session_with_id,
            (c, id, src, sinks, prefs),
            r,
        ),
        r is Ok,
        *old(again) == *final(c),
        call_ensures(
            ControlPlane::<P, D>::ensure_session_with_id,
            (again, id, src2, sinks2, prefs2),
            r2,
        ),
    ensures
        final(c).sessions@.dom().contains(id@),
        r2 matches Ok(s) && s@ == r->Ok_0@,
        *final(again) == *final(c),
{
}

/// A token is over from the second in which it ends, and not before.
pub proof fn law_token_is_over_when_it_ends(token: &ShareToken, now: u64, r: bool)
    requires
        call_ensures(ShareToken::is_expired, (token, now), r),
    ensures
        now < token.expires_at ==> !r,
        now >= token.expires_at ==> r,
{
}

/// Tokens are the same only when nothing tells them apart.
pub proof fn law_same_tokens_agree_in_every_part(a: &ShareToken, b: &ShareToken, r: bool)
    requires
        call_ensures(ShareToken::same, (a, b), r),
    ensures
        r <==> a.v == b.v && a.stream_id@ == b.stream_id@ && a.pin@ == b.pin@ && a.expires_at
            == b.expires_at && a.media@ == b.media@,
{
}

proof fn lemma_cut(a: Seq<char>, x: Seq<char>, b: Seq<char>, y: Seq<char>)
    requires
        a + seq![':'] + x == b + seq![':'] + y,
        !a.contains(':'),
        !b.contains(':'),
    ensures
        a == b,
        x == y,
{
    let s = a + seq![':'] + x;
    assert(s[a.len() as int] == ':');
    assert(s[b.len() as int] == ':');
    if a.len() < b.len() {
        assert(b[a.len() as int] == s[a.len() as int]);
    }
    if b.len() < a.len() {
        assert(a[b.len() as int] == s[b.len() as int]);
    }
    assert(s.take(a.len() as int) =~= a);
    assert(s.take(b.len() as int) =~= b);
    assert(s.skip(a.len() as int + 1) =~= x);
    assert(s.skip(b.len() as int + 1) =~= y);
}

proof fn lemma_no_colon(n: nat)
    ensures
        !dec(n).contains(':'),
{
    lemma_parse_dec(n, n);
    if dec(n).contains(':') {
        let i = choose|i: int| 0 <= i < dec(n).len() && dec(n)[i] == ':';
        assert(is_digit(dec(n)[i]));
    }
}

/// The text of a token says which version, stream, pin and end it has: two tokens with the same text
/// have the same, as long as no colon stands in their streams and pins.
pub proof fn law_token_text_tells_the_token(
    a: &ShareToken,
    b: &ShareToken,
    x: String,
    y: String,
)
    requires
        call_ensures(ShareToken::to_token_string, (a,), x),
        call_ensures(ShareToken::to_token_string, (b,), y),
        !a.stream_id@.contains(':') && !b.stream_id@.contains(':'),
        !a.pin@.contains(':') && !b.pin@.contains(':'),
        x@ == y@,
    ensures
        a.v == b.v,
        a.stream_id@ == b.stream_id@,
        a.pin@ == b.pin@,
        a.expires_at == b.expires_at,
{
    reveal_strlit(":");
    let c = seq![':'];
    assert(":"@ =~= c);
    let a4 = joined(kind_labels(a.media@), ","@);
    let a3 = dec(a.expires_at as nat) + c + a4;
    let a2 = a.pin@ + c + a3;
    let a1 = a.stream_id@ + c + a2;
    let b4 = joined(kind_labels(b.media@), ","@);
    let b3 = dec(b.expires_at as nat) + c + b4;
    let b2 = b.pin@ + c + b3;
    let b1 = b.stream_id@ + c + b2;
    assert(x@ =~= dec(a.v as nat) + c + a1);
    assert(y@ =~= dec(b.v as nat) + c + b1);
    lemma_no_colon(a.v as nat);
    lemma_no_colon(b.v as nat);
    lemma_no_colon(a.expires_at as nat);
    lemma_no_colon(b.expires_at as nat);
    lemma_cut(dec(a.v as nat), a1, dec(b.v as nat), b1);
    lemma_cut(a.stream_id@, a2, b.stream_id@, b2);
    lemma_cut(a.pin@, a3, b.pin@, b3);
    lemma_cut(dec(a.expires_at as nat), a4, dec(b.expires_at as nat), b4);
    lemma_numeral_injective(a.v as nat, b.v as nat, 10);
    lemma_numeral_injective(a.expires_at as nat, b.expires_at as nat, 10);
}

/// A token that was issued is accepted until it ends or is taken back; afterwards it is not.
pub proof fn law_issued_token_counts_until_taken_back(
    t: &mut TokenTable,
    token: ShareToken,
    now: u64,
    shown: &ShareToken,
    later: u64,
    accepted: Result<(), Error>,
    gone: &mut TokenTable,
    stream_id: &str,
    refused: Result<(), Error>,
)
    requires
        call_ensures(TokenTable::issue, (t, token, now), ()),
        shown@ == token@,
        call_ensures(TokenTable::verify, (&*final(t), shown, later), accepted),
        *old(gone) == *final(t),
        stream_id@ == token.stream_id@,
        call_ensures(TokenTable::revoke, (gone, stream_id), ()),
        call_ensures(TokenTable::verify, (&*final(gone), shown, later), refused),
    ensures
        accepted is Ok <==> later < token.expires_at,
        refused is Err,
{
}

/// A token that is issued together with its session is for that session: the session bears the title
/// that was asked for and is open, and the token lets in the media that were asked for until its time
/// is over, which is ten minutes when nothing else was asked for.
pub proof fn law_token_comes_with_its_session<P: AuthPolicy, D: DataPlaneBackend>(
    c: &mut ControlPlane<P, D>,
    title: String,
    media: Vec<MediaKind>,
    ttl_secs: Option<u64>,
    now: u64,
    r: Result<ShareTokenView, Error>,
    id: &str,
    there: bool,
    session: Option<Session>,
)
    requires
        old(c).data_plane is None,
        call_ensures(
            ControlPlane::<P, D>::issue_share_token_for,
            (c, title, media, ttl_secs, now),
            r,
        ),
        r is Ok ==> id@ == r->Ok_0.stream_id@,
        call_ensures(ControlPlane::<P, D>::has_session, (&*final(c), id), there),
        call_ensures(SessionManager::get, (&final(c).sessions, id), session),
    ensures
        r is Ok,
        there,
        session matches Some(s) && s.title@ == title@ && !s.requires_pin,
        ({
            let kept = final(c).share_tokens@[id@];
            let ttl = if ttl_secs is Some {
                ttl_secs->0
            } else {
                600
            };
            &&& final(c).share_tokens@.dom().contains(id@)
            &&& kept.media == media@
            &&& kept.pin == r->Ok_0.pin@
            &&& kept.expires_at == r->Ok_0.expires_at
            &&& now + ttl <= u64::MAX ==> kept.expires_at == now + ttl
        }),
{
}

/// Issuing a token forgets those that are over, and no other.
pub proof fn law_ended_tokens_are_forgotten(
    t: &mut TokenTable,
    token: ShareToken,
    now: u64,
    other: Seq<char>,
)
    requires
        call_ensures(TokenTable::issue, (t, token, now), ()),
        other != token.stream_id@,
    ensures
        final(t)@.dom().contains(other) <==> old(t)@.dom().contains(other)
            && old(t)@[other].expires_at > now,
        final(t)@.dom().contains(other) ==> final(t)@[other] == old(t)@[other],
{
}

} // verus!
