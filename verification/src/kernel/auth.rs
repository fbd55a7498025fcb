//! Access codes of sessions.

use vstd::prelude::*;

use crate::table::Table;
use crate::text::same;

verus! {

/// Why an access was refused.
#[derive(Debug, Clone, Copy, PartialEq, Eq, Structural)]
pub enum AuthError {
    /// The session has an access code and none was given.
    CodeRequired,
    /// The access code given is wrong.
    CodeMismatch,
}

impl AuthError {
    /// The text that users see.
    pub open spec fn text(&self) -> Seq<char> {
        match self {
            AuthError::CodeRequired => "会话需要访问码（PIN）"@,
            AuthError::CodeMismatch => "访问码错误"@,
        }
    }

    /// The text that users see.
    pub fn to_user_string(&self) -> (r: String)
        ensures
            r@ == self.text(),
    {
        match self {
            AuthError::CodeRequired => "会话需要访问码（PIN）".to_owned(),
            AuthError::CodeMismatch => "访问码错误".to_owned(),
        }
    }
}

/// The characters of an optional string.
pub open spec fn opt_text(s: Option<&str>) -> Option<Seq<char>> {
    match s {
        Some(t) => Some(t@),
        None => None,
    }
}

/// Decides who may control a session.
pub trait AuthPolicy: Sized {
    /// The decision on an access code, given or not.
    spec fn verdict(&self, session_id: Seq<char>, code: Option<Seq<char>>) -> Result<(), AuthError>;

    /// What setting (or, with `None`, clearing) an access code changes.
    spec fn code_set(pre: &Self, post: &Self, session_id: Seq<char>, code: Option<Seq<char>>) -> bool;

    /// What the policy needs to work.
    spec fn wf(&self) -> bool;

    /// Checks an access code.
    fn authorize(&self, session_id: &str, access_code: Option<&str>) -> (r: Result<(), AuthError>)
        requires
            self.wf(),
        ensures
            r == self.verdict(session_id@, opt_text(access_code)),
    ;

    /// Sets the access code of a session; `None` clears it.
    fn set_code(&mut self, session_id: &str, code: Option<&str>)
        requires
            old(self).wf(),
        ensures
            final(self).wf(),
            Self::code_set(old(self), final(self), session_id@, opt_text(code)),
    ;
}

/// The built-in policy: whoever creates a session sets its access code.
pub struct PinAuthPolicy {
    pins: Table<String, String>,
}

impl View for PinAuthPolicy {
    type V = Map<Seq<char>, String>;

    closed spec fn view(&self) -> Map<Seq<char>, String> {
        self.pins@
    }
}

impl Default for PinAuthPolicy {
    fn default() -> (r: Self)
        ensures
            r.wf(),
            r@ == Map::<Seq<char>, String>::empty(),
    {
        PinAuthPolicy { pins: Table::new() }
    }
}

/// The decision of the built-in policy on the codes that are set: without a code everybody may
/// pass; with one, only who gives exactly that code.
pub open spec fn pin_verdict(
    pins: Map<Seq<char>, String>,
    session_id: Seq<char>,
    code: Option<Seq<char>>,
) -> Result<(), AuthError> {
    if !pins.dom().contains(session_id) {
        Ok(())
    } else {
        match code {
            None => Err(AuthError::CodeRequired),
            Some(c) => if c == pins[session_id]@ {
                Ok(())
            } else {
                Err(AuthError::CodeMismatch)
            },
        }
    }
}

impl AuthPolicy for PinAuthPolicy {
    open spec fn verdict(&self, session_id: Seq<char>, code: Option<Seq<char>>) -> Result<
        (),
        AuthError,
    > {
        pin_verdict(self@, session_id, code)
    }

    open spec fn code_set(
        pre: &Self,
        post: &Self,
        session_id: Seq<char>,
        code: Option<Seq<char>>,
    ) -> bool {
        match code {
            None => post@ == pre@.remove(session_id),
            Some(c) => {
                &&& post@.dom().contains(session_id)
                &&& post@[session_id]@ == c
                &&& post@ == pre@.insert(session_id, post@[session_id])
            },
        }
    }

    closed spec fn wf(&self) -> bool {
        self.pins.wf()
    }

    fn authorize(&self, session_id: &str, access_code: Option<&str>) -> (r: Result<(), AuthError>) {
        match self.pins.get(&session_id.to_owned()) {
            None => Ok(()),
            Some(pin) => match access_code {
                None => Err(AuthError::CodeRequired),
                Some(code) => if same(code, pin.as_str()) {
                    Ok(())
                } else {
                    Err(AuthError::CodeMismatch)
                },
            },
        }
    }

    fn set_code(&mut self, session_id: &str, code: Option<&str>) {
        match code {
            Some(c) => {
                let _ = self.pins.insert(session_id.to_owned(), c.to_owned());
            },
            None => {
                let _ = self.pins.remove(&session_id.to_owned());
            },
        }
    }
}

/// After a code was set, exactly that code passes; other sessions are judged as before.
pub proof fn law_code_set_then_judged(
    pre: PinAuthPolicy,
    post: PinAuthPolicy,
    session_id: Seq<char>,
    code: Seq<char>,
    other: Seq<char>,
    tried: Option<Seq<char>>,
)
    requires
        PinAuthPolicy::code_set(&pre, &post, session_id, Some(code)),
    ensures
        post.verdict(session_id, None) == Err::<(), AuthError>(AuthError::CodeRequired),
        tried is Some ==> (post.verdict(session_id, tried) is Ok <==> tried == Some(code)),
        other != session_id ==> post.verdict(other, tried) == pre.verdict(other, tried),
{
}

/// A session without a code is open to everybody.
pub proof fn law_cleared_code_is_open(
    pre: PinAuthPolicy,
    post: PinAuthPolicy,
    session_id: Seq<char>,
    tried: Option<Seq<char>>,
)
    requires
        PinAuthPolicy::code_set(&pre, &post, session_id, None),
    ensures
        post.verdict(session_id, tried) is Ok,
{
}

/// A session whose access code was set lets nobody in without it, nobody with another one, and whoever
/// gives it; once it is cleared everybody may pass.
pub proof fn law_code_is_asked_for(
    p: &mut PinAuthPolicy,
    id: &str,
    code: &str,
    tried: &str,
    none: Result<(), AuthError>,
    with: Result<(), AuthError>,
    cleared: &mut PinAuthPolicy,
    open: Result<(), AuthError>,
)
    requires
        call_ensures(<PinAuthPolicy as AuthPolicy>::set_code, (p, id, Some(code)), ()),
        call_ensures(<PinAuthPolicy as AuthPolicy>::authorize, (&*final(p), id, None), none),
        call_ensures(<PinAuthPolicy as AuthPolicy>::authorize, (&*final(p), id, Some(tried)), with),
        *old(cleared) == *final(p),
        call_ensures(<PinAuthPolicy as AuthPolicy>::set_code, (cleared, id, None), ()),
        call_ensures(<PinAuthPolicy as AuthPolicy>::authorize, (&*final(cleared), id, None), open),
    ensures
        none == Err::<(), AuthError>(AuthError::CodeRequired),
        tried@ == code@ ==> with is Ok,
        tried@ != code@ ==> with == Err::<(), AuthError>(AuthError::CodeMismatch),
        open is Ok,
{
}

} // verus!
