//! Sessions: who sends to whom, over which path, and who may control it.

use vstd::prelude::*;

use crate::error::Error;
use crate::message::{
    clone_strings, texts, CodecId, ReliabilityProfile, RouteModel, RoutePath, TransportId,
};
use crate::order::{
    lemma_same_members, lemma_text_le_total, lemma_text_le_transitive, sort, sorted, text_le,
    text_leq, Ranked,
};
use crate::table::Table;

verus! {

/// What the negotiation of a session settled.
#[derive(Debug, Clone, Copy, PartialEq, Eq, Structural)]
pub struct Negotiated {
    pub transport: TransportId,
    pub codec: CodecId,
    pub profile: ReliabilityProfile,
}

/// A session from one source to one or more sinks.
#[derive(Debug)]
pub struct Session {
    pub id: String,
    pub title: String,
    pub source: String,
    pub sinks: Vec<String>,
    pub path: RoutePath,
    pub negotiated: Negotiated,
    /// Whether control operations need the access code first.
    pub requires_pin: bool,
    /// Whether the access code was given.
    pub authorized: bool,
}

/// What a session is, as a mathematical value.
#[verifier::ext_equal]
pub struct SessionModel {
    pub id: Seq<char>,
    pub title: Seq<char>,
    pub source: Seq<char>,
    pub sinks: Seq<Seq<char>>,
    pub path: RouteModel,
    pub negotiated: Negotiated,
    pub requires_pin: bool,
    pub authorized: bool,
}

impl View for Session {
    type V = SessionModel;

    open spec fn view(&self) -> SessionModel {
        SessionModel {
            id: self.id@,
            title: self.title@,
            source: self.source@,
            sinks: texts(self.sinks@),
            path: self.path@,
            negotiated: self.negotiated,
            requires_pin: self.requires_pin,
            authorized: self.authorized,
        }
    }
}

impl Clone for Session {
    fn clone(&self) -> (r: Self)
        ensures
            r@ == self@,
    {
        Session {
            id: self.id.clone(),
            title: self.title.clone(),
            source: self.source.clone(),
            sinks: clone_strings(&self.sinks),
            path: self.path.clone(),
            negotiated: self.negotiated,
            requires_pin: self.requires_pin,
            authorized: self.authorized,
        }
    }
}

/// Wishes for a new session.
#[derive(Debug)]
pub struct SessionPrefs {
    pub profile: ReliabilityProfile,
    pub preferred_transport: Option<TransportId>,
    /// The access code, when the session shall have one.
    pub access_code: Option<String>,
    pub title: String,
}

impl Default for SessionPrefs {
    fn default() -> (r: Self)
        ensures
            r.profile == ReliabilityProfile::Lossy,
            r.preferred_transport is None,
            r.access_code is None,
            r.title@ == Seq::<char>::empty(),
    {
        SessionPrefs {
            profile: ReliabilityProfile::Lossy,
            preferred_transport: None,
            access_code: None,
            title: String::new(),
        }
    }
}

impl SessionModel {
    /// Whether control operations are open.
    pub open spec fn open_to_control(self) -> bool {
        !self.requires_pin || self.authorized
    }
}

impl Session {
    /// Refuses control operations while the access code is missing.
    pub fn require_authorized(&self) -> (r: Result<(), Error>)
        ensures
            r is Ok <==> self@.open_to_control(),
            r matches Err(e) ==> e == Error::PinRequired,
    {
        if self.requires_pin && !self.authorized {
            return Err(Error::PinRequired);
        }
        Ok(())
    }

    /// Notes that the access code was given.
    pub fn mark_authorized(&mut self)
        ensures
            final(self)@ == (SessionModel { authorized: true, ..old(self)@ }),
    {
        self.authorized = true;
    }
}

impl Ranked for Session {
    open spec fn le(&self, other: &Self) -> bool {
        text_le(self.id@, other.id@)
    }

    proof fn total(a: &Self, b: &Self) {
        lemma_text_le_total(a.id@, b.id@);
    }

    proof fn transitive(a: &Self, b: &Self, c: &Self) {
        lemma_text_le_transitive(a.id@, b.id@, c.id@);
    }

    fn leq(&self, other: &Self) -> (r: bool) {
        text_leq(self.id.as_str(), other.id.as_str())
    }
}

/// The sessions, by id.
pub struct SessionManager {
    sessions: Table<String, Session>,
}

/// The models of the values of a map.
pub open spec fn session_models(m: Map<Seq<char>, Session>) -> Map<Seq<char>, SessionModel> {
    m.map_values(|s: Session| s@)
}

impl View for SessionManager {
    type V = Map<Seq<char>, SessionModel>;

    closed spec fn view(&self) -> Map<Seq<char>, SessionModel> {
        session_models(self.sessions@)
    }
}

impl Default for SessionManager {
    fn default() -> (r: Self)
        ensures
            r.wf(),
            r@ == Map::<Seq<char>, SessionModel>::empty(),
    {
        let r = SessionManager { sessions: Table::new() };
        assert(r@ =~= Map::<Seq<char>, SessionModel>::empty());
        r
    }
}

/// The outcome of asking for control over a session.
pub open spec fn control_granted(
    sessions: Map<Seq<char>, SessionModel>,
    id: Seq<char>,
    r: Result<(), Error>,
) -> bool {
    if !sessions.dom().contains(id) {
        r matches Err(Error::SessionNotFound(t)) && t@ == id
    } else if !sessions[id].open_to_control() {
        r matches Err(Error::PinRequired)
    } else {
        r is Ok
    }
}

impl SessionManager {
    /// Every session stands under its own id.
    pub closed spec fn wf(&self) -> bool {
        &&& self.sessions.wf()
        &&& forall|k: Seq<char>|
            #[trigger] self.sessions@.dom().contains(k) ==> self.sessions@[k].id@ == k
    }

    /// Every session stands under its own id.
    pub proof fn lemma_ids(&self)
        requires
            self.wf(),
        ensures
            forall|k: Seq<char>| #[trigger] self@.dom().contains(k) ==> self@[k].id == k,
            self@.dom().finite(),
    {
        self.sessions.lemma_keys();
        assert(self@.dom() =~= self.sessions@.dom());
    }

    /// Whether there is such a session.
    pub fn contains(&self, id: &str) -> (r: bool)
        requires
            self.wf(),
        ensures
            r == self@.dom().contains(id@),
    {
        self.sessions.contains(&id.to_owned())
    }

    /// A copy of a session.
    pub fn get(&self, id: &str) -> (r: Option<Session>)
        requires
            self.wf(),
        ensures
            match r {
                Some(s) => self@.dom().contains(id@) && s@ == self@[id@],
                None => !self@.dom().contains(id@),
            },
    {
        match self.sessions.get(&id.to_owned()) {
            Some(s) => Some(s.clone()),
            None => None,
        }
    }

    /// Adds a session or replaces the one with the same id.
    pub fn insert(&mut self, session: Session)
        requires
            old(self).wf(),
        ensures
            final(self).wf(),
            final(self)@ == old(self)@.insert(session.id@, session@),
    {
        let id: String = session.id.clone();
        let _ = self.sessions.insert(id, session);
        assert(self@ =~= old(self)@.insert(session.id@, session@));
    }

    /// Removes a session.
    pub fn remove(&mut self, id: &str) -> (r: Option<Session>)
        requires
            old(self).wf(),
        ensures
            final(self).wf(),
            final(self)@ == old(self)@.remove(id@),
            match r {
                Some(s) => old(self)@.dom().contains(id@) && s@ == old(self)@[id@],
                None => !old(self)@.dom().contains(id@),
            },
    {
        let r = self.sessions.remove(&id.to_owned());
        assert(self@ =~= old(self)@.remove(id@));
        r
    }

    /// The number of sessions.
    pub fn len(&self) -> (r: usize)
        requires
            self.wf(),
        ensures
            r == self@.dom().len(),
    {
        assert(self@.dom() =~= self.sessions@.dom());
        self.sessions.len()
    }

    /// All sessions, in the order of their ids.
    pub fn snapshot(&self) -> (r: Vec<Session>)
        requires
            self.wf(),
        ensures
            sorted(r@),
            r@.len() == self@.dom().len(),
            forall|k: Seq<char>| #[trigger]
                self@.dom().contains(k) ==> exists|i: int|
                    0 <= i < r@.len() && #[trigger] r@[i]@ == self@[k],
            forall|i: int|
                0 <= i < r@.len() ==> {
                    let s = #[trigger] r@[i];
                    self@.dom().contains(s.id@) && s@ == self@[s.id@]
                },
    {
        let mut v: Vec<Session> = Vec::new();
        let mut i: usize = 0;
        let count: usize = self.sessions.len();
        let ghost keys = self.sessions.keys();
        proof {
            self.sessions.lemma_keys();
            self.lemma_ids();
            assert(self@.dom() =~= self.sessions@.dom());
        }
        while i < count
            invariant
                self.wf(),
                keys == self.sessions.keys(),
                count == keys.len(),
                i <= count,
                v@.len() == i,
                forall|j: int|
                    0 <= j < i ==> (#[trigger] v@[j])@ == self@[keys[j]] && self@.dom().contains(
                        keys[j],
                    ),
            decreases count - i,
        {
            let s: Session = self.sessions.value_at(i).clone();
            assert(s@ == self@[keys[i as int]]);
            v.push(s);
            i += 1;
        }
        let r = sort(v);
        proof {
            lemma_same_members(v@, r@);
            assert forall|k: Seq<char>| #[trigger] self@.dom().contains(k) implies exists|i: int|
                0 <= i < r@.len() && #[trigger] r@[i]@ == self@[k] by {
                assert(keys.contains(k));
                let j = choose|j: int| 0 <= j < keys.len() && keys[j] == k;
                assert(v@.contains(v@[j]));
                let i = choose|i: int| 0 <= i < r@.len() && r@[i] == v@[j];
                assert(r@[i]@ == self@[k]);
            }
            assert forall|i: int| 0 <= i < r@.len() implies {
                let s = #[trigger] r@[i];
                self@.dom().contains(s.id@) && s@ == self@[s.id@]
            } by {
                assert(r@.contains(r@[i]));
                let j = choose|j: int| 0 <= j < v@.len() && v@[j] == r@[i];
                assert(self@[keys[j]].id == keys[j]);
            }
        }
        r
    }

    /// Refuses control over sessions that do not exist or whose access code is missing.
    pub fn require_authorized(&self, id: &str) -> (r: Result<(), Error>)
        requires
            self.wf(),
        ensures
            control_granted(self@, id@, r),
    {
        match self.sessions.get(&id.to_owned()) {
            None => Err(Error::SessionNotFound(id.to_owned())),
            Some(s) => s.require_authorized(),
        }
    }

    /// Changes the path of a session under the same conditions as any control operation.
    pub fn route(&mut self, id: &str, path: RoutePath) -> (r: Result<(), Error>)
        requires
            old(self).wf(),
        ensures
            final(self).wf(),
            control_granted(old(self)@, id@, r),
            r is Err ==> final(self)@ == old(self)@,
            r is Ok ==> final(self)@ == old(self)@.insert(
                id@,
                SessionModel { path: path@, ..old(self)@[id@] },
            ),
    {
        match self.require_authorized(id) {
            Err(e) => Err(e),
            Ok(()) => {
                let key: String = id.to_owned();
                let s: Option<Session> = self.sessions.remove(&key);
                let mut s: Session = s.unwrap();
                s.path = path;
                let ghost after = s@;
                let _ = self.sessions.insert(key, s);
                assert(self@ =~= old(self)@.insert(id@, after));
                Ok(())
            },
        }
    }

    /// Notes that the access code of a session was given.
    pub fn mark_authorized(&mut self, id: &str) -> (r: Result<(), Error>)
        requires
            old(self).wf(),
        ensures
            final(self).wf(),
            r is Ok <==> old(self)@.dom().contains(id@),
            r matches Err(e) ==> {
                &&& e matches Error::SessionNotFound(t) && t@ == id@
                &&& final(self)@ == old(self)@
            },
            r is Ok ==> final(self)@ == old(self)@.insert(
                id@,
                SessionModel { authorized: true, ..old(self)@[id@] },
            ),
    {
        let key: String = id.to_owned();
        match self.sessions.remove(&key) {
            None => {
                assert(self@ =~= old(self)@);
                Err(Error::SessionNotFound(id.to_owned()))
            },
            Some(mut s) => {
                s.mark_authorized();
                let ghost after = s@;
                let _ = self.sessions.insert(key, s);
                assert(self@ =~= old(self)@.insert(id@, after));
                Ok(())
            },
        }
    }
}

/// Chooses the path of a session.
pub struct Router;

/// The path that a session starts with: direct to a single sink, to all of several, and by way of
/// this node's relay when there is none.
pub open spec fn start_path(sinks: Seq<Seq<char>>) -> RouteModel {
    if sinks.len() == 0 {
        RouteModel::ViaRelay { node: "local"@ }
    } else if sinks.len() == 1 {
        RouteModel::Direct { node: sinks[0] }
    } else {
        RouteModel::Mesh { nodes: sinks }
    }
}

impl Router {
    /// The path that a session starts with.
    pub fn default_path(sinks: &Vec<String>) -> (r: RoutePath)
        ensures
            r@ == start_path(texts(sinks@)),
    {
        if sinks.len() == 0 {
            RoutePath::ViaRelay { node: "local".to_owned() }
        } else if sinks.len() == 1 {
            RoutePath::Direct { node: sinks[0].clone() }
        } else {
            RoutePath::Mesh { nodes: clone_strings(sinks) }
        }
    }
}

/// The path of a session that is open to control is the one that was set last; nobody changes the path
/// of one that is closed, or of one that is not there.
pub proof fn law_path_is_the_one_set_last(
    m: &mut SessionManager,
    id: &str,
    path: RoutePath,
    r: Result<(), Error>,
    before: Option<Session>,
    after: Option<Session>,
)
    requires
        call_ensures(SessionManager::route, (m, id, path), r),
        call_ensures(SessionManager::get, (&*old(m), id), before),
        call_ensures(SessionManager::get, (&*final(m), id), after),
    ensures
        r is Ok <==> (before matches Some(s) && (!s.requires_pin || s.authorized)),
        r is Ok ==> (after matches Some(s) && s.path@ == path@ && s.title@ == before->0.title@
            && s.source@ == before->0.source@),
        r is Err ==> final(m)@ == old(m)@,
{
}

/// Sessions are listed in the order of their ids, every one of them.
pub proof fn law_sessions_are_listed(m: &SessionManager, r: Vec<Session>, id: &str, s: Session) -> (i: int)
    requires
        call_ensures(SessionManager::snapshot, (m,), r),
        call_ensures(SessionManager::get, (m, id), Some(s)),
    ensures
        0 <= i < r@.len(),
        r@[i]@ == s@,
        r@.len() == m@.dom().len(),
{
    choose|i: int| 0 <= i < r@.len() && #[trigger] r@[i]@ == m@[id@]
}

/// A session that was added is found under its id, and one that was removed is not.
pub proof fn law_added_session_is_found(
    m: &mut SessionManager,
    session: Session,
    id: &str,
    there: bool,
    got: Option<Session>,
    gone: &mut SessionManager,
    taken: Option<Session>,
    still: bool,
)
    requires
        id@ == session.id@,
        call_ensures(SessionManager::insert, (m, session), ()),
        call_ensures(SessionManager::contains, (&*final(m), id), there),
        call_ensures(SessionManager::get, (&*final(m), id), got),
        *old(gone) == *final(m),
        call_ensures(SessionManager::remove, (gone, id), taken),
        call_ensures(SessionManager::contains, (&*final(gone), id), still),
    ensures
        there,
        got matches Some(s) && s@ == session@,
        taken matches Some(s) && s@ == session@,
        !still,
{
}

/// A session with an access code is closed to control until the code was given; others never are.
pub proof fn law_session_waits_for_its_code(
    s: &mut Session,
    before: Result<(), Error>,
    after: Result<(), Error>,
)
    requires
        call_ensures(Session::require_authorized, (&*old(s),), before),
        call_ensures(Session::mark_authorized, (s,), ()),
        call_ensures(Session::require_authorized, (&*final(s),), after),
    ensures
        old(s).requires_pin && !old(s).authorized ==> before == Err::<(), Error>(Error::PinRequired),
        !old(s).requires_pin || old(s).authorized ==> before is Ok,
        after is Ok,
        final(s).id@ == old(s).id@ && final(s).title@ == old(s).title@,
        final(s).requires_pin == old(s).requires_pin,
{
}

/// Among many sessions, the one whose code was given opens to control; the others stay as they were,
/// and one that is not there is reported missing.
pub proof fn law_only_the_named_session_opens(
    m: &mut SessionManager,
    id: &str,
    other: &str,
    marked: Result<(), Error>,
    after: Result<(), Error>,
    other_before: Result<(), Error>,
    other_after: Result<(), Error>,
    there: bool,
)
    requires
        call_ensures(SessionManager::contains, (&*old(m), id), there),
        call_ensures(SessionManager::require_authorized, (&*old(m), other), other_before),
        call_ensures(SessionManager::mark_authorized, (m, id), marked),
        call_ensures(SessionManager::require_authorized, (&*final(m), id), after),
        call_ensures(SessionManager::require_authorized, (&*final(m), other), other_after),
        other@ != id@,
    ensures
        there ==> marked is Ok && after is Ok,
        !there ==> (marked matches Err(Error::SessionNotFound(t)) && t@ == id@) && after is Err,
        other_after is Ok <==> other_before is Ok,
{
}

} // verus!
