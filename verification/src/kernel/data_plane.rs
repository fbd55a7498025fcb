//! The data plane that the kernel drives: which streams a controlled relay lets in.

use vstd::prelude::*;

use crate::error::Error;
use crate::message::texts;
use crate::table::Table;

verus! {

/// What a controlled relay knows about the streams that may come in and who watches them.
pub struct RelayState {
    authorized: Table<String, Option<u32>>,
}

impl View for RelayState {
    /// The authorised streams, each with its number of watchers while it runs.
    type V = Map<Seq<char>, Option<u32>>;

    closed spec fn view(&self) -> Map<Seq<char>, Option<u32>> {
        self.authorized@
    }
}

impl Default for RelayState {
    fn default() -> (r: Self)
        ensures
            r.wf(),
            r@ == Map::<Seq<char>, Option<u32>>::empty(),
    {
        RelayState { authorized: Table::new() }
    }
}

impl RelayState {
    pub closed spec fn wf(&self) -> bool {
        self.authorized.wf()
    }

    /// Lets a stream in; one that may come in already keeps its watchers.
    pub fn authorize_stream(&mut self, session_id: &str)
        requires
            old(self).wf(),
        ensures
            final(self).wf(),
            final(self)@ == (if old(self)@.dom().contains(session_id@) {
                old(self)@
            } else {
                old(self)@.insert(session_id@, None)
            }),
    {
        let key: String = session_id.to_owned();
        if !self.authorized.contains(&key) {
            let _ = self.authorized.insert(key, None);
        }
    }

    /// Lets a stream in no longer.
    pub fn revoke_stream(&mut self, session_id: &str)
        requires
            old(self).wf(),
        ensures
            final(self).wf(),
            final(self)@ == old(self)@.remove(session_id@),
    {
        let _ = self.authorized.remove(&session_id.to_owned());
    }

    /// Whether a stream may come in.
    pub fn is_authorized(&self, session_id: &str) -> (r: bool)
        requires
            self.wf(),
        ensures
            r == self@.dom().contains(session_id@),
    {
        self.authorized.contains(&session_id.to_owned())
    }

    /// Notes how many watchers a stream has, or that it does not run.
    pub fn set_watchers(&mut self, session_id: &str, watchers: Option<u32>)
        requires
            old(self).wf(),
        ensures
            final(self).wf(),
            final(self)@ == (if old(self)@.dom().contains(session_id@) {
                old(self)@.insert(session_id@, watchers)
            } else {
                old(self)@
            }),
    {
        let key: String = session_id.to_owned();
        if self.authorized.contains(&key) {
            let _ = self.authorized.insert(key, watchers);
        }
    }

    /// The number of watchers of a stream; `None` when the stream does not run.
    pub fn watchers(&self, session_id: &str) -> (r: Option<u32>)
        requires
            self.wf(),
        ensures
            r == (if self@.dom().contains(session_id@) {
                self@[session_id@]
            } else {
                None
            }),
    {
        match self.authorized.get(&session_id.to_owned()) {
            Some(n) => *n,
            None => None,
        }
    }

    /// The streams that may come in, each once.
    pub fn streams(&self) -> (r: Vec<String>)
        requires
            self.wf(),
        ensures
            texts(r@).no_duplicates(),
            texts(r@).to_set() == self@.dom(),
    {
        let mut r: Vec<String> = Vec::new();
        let mut i: usize = 0;
        while i < self.authorized.len()
            invariant
                self.wf(),
                i <= self.authorized.keys().len(),
                texts(r@) == self.authorized.keys().take(i as int),
            decreases self.authorized.keys().len() - i,
        {
            let ghost before = r@;
            let key: String = self.authorized.key_at(i).clone();
            r.push(key);
            assert(texts(r@) =~= texts(before).push(key@));
            assert(self.authorized.keys().take(i + 1) =~= self.authorized.keys().take(
                i as int,
            ).push(key@));
            i += 1;
        }
        proof {
            self.authorized.lemma_keys();
            assert(texts(r@) =~= self.authorized.keys());
        }
        r
    }
}

/// A running relay.
pub struct RelayHandle {
    pub port: u16,
    pub srt_port: Option<u16>,
    pub quic_port: Option<u16>,
    pub state: RelayState,
}

/// A data plane: the kernel tells it which streams to let in.
pub trait DataPlaneBackend: Sized {
    spec fn wf(&self) -> bool;

    /// The streams that may come in.
    spec fn streams(&self) -> Set<Seq<char>>;

    /// Whether a request to let a stream in succeeds.
    spec fn admits(&self, session_id: Seq<char>) -> bool;

    /// Whether a request to let a stream in no longer succeeds.
    spec fn releases(&self, session_id: Seq<char>) -> bool;

    /// How many watchers a stream has; `None` when the stream is gone.
    spec fn watched_by(&self, session_id: Seq<char>) -> Option<u32>;

    /// Lets the stream of a session in, or says why not.
    fn authorize_stream(&mut self, session_id: &str) -> (r: Result<(), Error>)
        requires
            old(self).wf(),
        ensures
            final(self).wf(),
            r is Ok <==> old(self).admits(session_id@),
            r is Ok ==> final(self).streams() == old(self).streams().insert(session_id@),
    ;

    /// Lets the stream of a session in no longer, or says why not.
    fn revoke_stream(&mut self, session_id: &str) -> (r: Result<(), Error>)
        requires
            old(self).wf(),
        ensures
            final(self).wf(),
            r is Ok <==> old(self).releases(session_id@),
            r is Ok ==> final(self).streams() == old(self).streams().remove(session_id@),
    ;

    /// The number of watchers of a stream; `None` when the stream is gone.
    fn stream_watchers(&self, session_id: &str) -> (r: Option<u32>)
        requires
            self.wf(),
        ensures
            r == self.watched_by(session_id@),
    ;
}

/// The relay of this process as a data plane.
pub struct RelayDataPlane {
    state: RelayState,
}

impl RelayDataPlane {
    /// The streams that may come in, each with its number of watchers while it runs.
    pub closed spec fn relay(&self) -> Map<Seq<char>, Option<u32>> {
        self.state@
    }

    /// Wraps the state of a running relay.
    pub fn new(handle: RelayHandle) -> (r: RelayDataPlane)
        requires
            handle.state.wf(),
        ensures
            r.wf(),
            r.relay() == handle.state@,
    {
        RelayDataPlane { state: handle.state }
    }

    /// The streams that may come in, each once.
    pub fn authorized(&self) -> (r: Vec<String>)
        requires
            self.wf(),
        ensures
            texts(r@).no_duplicates(),
            texts(r@).to_set() == self.streams(),
    {
        self.state.streams()
    }

    /// Notes how many watchers a stream has, or that it does not run.
    pub fn set_watchers(&mut self, session_id: &str, watchers: Option<u32>)
        requires
            old(self).wf(),
        ensures
            final(self).wf(),
            final(self).relay() == (if old(self).relay().dom().contains(session_id@) {
                old(self).relay().insert(session_id@, watchers)
            } else {
                old(self).relay()
            }),
    {
        self.state.set_watchers(session_id, watchers);
    }
}

impl DataPlaneBackend for RelayDataPlane {
    closed spec fn wf(&self) -> bool {
        self.state.wf()
    }

    open spec fn streams(&self) -> Set<Seq<char>> {
        self.relay().dom()
    }

    open spec fn admits(&self, session_id: Seq<char>) -> bool {
        true
    }

    open spec fn releases(&self, session_id: Seq<char>) -> bool {
        true
    }

    open spec fn watched_by(&self, session_id: Seq<char>) -> Option<u32> {
        if self.relay().dom().contains(session_id) {
            self.relay()[session_id]
        } else {
            None
        }
    }

    fn authorize_stream(&mut self, session_id: &str) -> (r: Result<(), Error>)
        ensures
            final(self).relay() == (if old(self).relay().dom().contains(session_id@) {
                old(self).relay()
            } else {
                old(self).relay().insert(session_id@, None)
            }),
    {
        self.state.authorize_stream(session_id);
        assert(self.streams() =~= old(self).streams().insert(session_id@));
        Ok(())
    }

    fn revoke_stream(&mut self, session_id: &str) -> (r: Result<(), Error>)
        ensures
            final(self).relay() == old(self).relay().remove(session_id@),
    {
        self.state.revoke_stream(session_id);
        assert(self.streams() =~= old(self).streams().remove(session_id@));
        Ok(())
    }

    fn stream_watchers(&self, session_id: &str) -> (r: Option<u32>) {
        self.state.watchers(session_id)
    }
}

/// A stream that was let in may come in, and one that was let in no longer may not; how many watch it
/// is told as it was noted, for streams that may come in and for no others. Letting it in again keeps
/// its watchers.
pub proof fn law_stream_comes_in_while_it_may(
    s: &mut RelayState,
    id: &str,
    may: bool,
    counted: &mut RelayState,
    watchers: Option<u32>,
    again: &mut RelayState,
    told: Option<u32>,
    gone: &mut RelayState,
    still: bool,
    late: &mut RelayState,
    lost: Option<u32>,
)
    requires
        call_ensures(RelayState::authorize_stream, (s, id), ()),
        call_ensures(RelayState::is_authorized, (&*final(s), id), may),
        *old(counted) == *final(s),
        call_ensures(RelayState::set_watchers, (counted, id, watchers), ()),
        *old(again) == *final(counted),
        call_ensures(RelayState::authorize_stream, (again, id), ()),
        call_ensures(RelayState::watchers, (&*final(again), id), told),
        *old(gone) == *final(again),
        call_ensures(RelayState::revoke_stream, (gone, id), ()),
        call_ensures(RelayState::is_authorized, (&*final(gone), id), still),
        *old(late) == *final(gone),
        call_ensures(RelayState::set_watchers, (late, id, watchers), ()),
        call_ensures(RelayState::watchers, (&*final(late), id), lost),
    ensures
        may,
        told == watchers,
        !still,
        lost is None,
{
}

/// The relay of this process lets in every stream that it is told to, and none that it is told to let
/// in no longer, whatever happens to others.
pub proof fn law_relay_does_as_it_is_told(
    d: &mut RelayDataPlane,
    id: &str,
    r: Result<(), Error>,
    listed: Vec<String>,
    gone: &mut RelayDataPlane,
    q: Result<(), Error>,
    left: Vec<String>,
    other: Seq<char>,
)
    requires
        call_ensures(<RelayDataPlane as DataPlaneBackend>::authorize_stream, (d, id), r),
        call_ensures(RelayDataPlane::authorized, (&*final(d),), listed),
        *old(gone) == *final(d),
        call_ensures(<RelayDataPlane as DataPlaneBackend>::revoke_stream, (gone, id), q),
        call_ensures(RelayDataPlane::authorized, (&*final(gone),), left),
        other != id@,
    ensures
        r is Ok,
        q is Ok,
        texts(listed@).contains(id@),
        !texts(left@).contains(id@),
        texts(left@).contains(other) <==> old(d).streams().contains(other),
{
    assert(texts(listed@).to_set().contains(id@));
    assert(texts(left@).to_set().contains(id@) <==> texts(left@).contains(id@));
    assert(texts(left@).to_set().contains(other) <==> texts(left@).contains(other));
}

/// The relay of this process says how many watch a stream, as it was noted last, as long as the
/// stream may come in; of others it knows nothing.
pub proof fn law_relay_says_how_many_watch(
    d: &mut RelayDataPlane,
    id: &str,
    watchers: Option<u32>,
    other: &str,
    told: Option<u32>,
    of_other: Option<u32>,
    of_other_before: Option<u32>,
)
    requires
        call_ensures(RelayDataPlane::set_watchers, (d, id, watchers), ()),
        call_ensures(<RelayDataPlane as DataPlaneBackend>::stream_watchers, (&*final(d), id), told),
        other@ != id@,
        call_ensures(
            <RelayDataPlane as DataPlaneBackend>::stream_watchers,
            (&*old(d), other),
            of_other_before,
        ),
        call_ensures(
            <RelayDataPlane as DataPlaneBackend>::stream_watchers,
            (&*final(d), other),
            of_other,
        ),
    ensures
        old(d).streams().contains(id@) ==> told == watchers,
        !old(d).streams().contains(id@) ==> told is None,
        of_other == of_other_before,
{
}

} // verus!
