//! Errors of the kernel and the texts that users see.

use vstd::prelude::*;

use crate::kernel::auth::AuthError;
use crate::text::{join2, join3};

verus! {

/// An error of the kernel.
#[derive(Debug)]
pub enum Error {
    /// A business rule refused the request; the text is ready to be shown.
    Message(String),
    /// There is no such session.
    SessionNotFound(String),
    /// The session has an access code that was not given yet.
    PinRequired,
    /// The access code is wrong.
    PinMismatch,
    /// The data plane refused to authorise or revoke a stream.
    DataPlane(String),
    /// An access token is not valid.
    Token(String),
    /// A connection failed.
    Link(String),
    /// Something below the kernel failed.
    Internal(String),
}

impl Error {
    /// The text that users see.
    pub open spec fn text(&self) -> Seq<char> {
        match self {
            Error::Message(s) => s@,
            Error::SessionNotFound(s) => "会话 "@ + s@ + " 不存在"@,
            Error::PinRequired => "会话需要访问码（PIN），请先 authorize"@,
            Error::PinMismatch => "访问码错误"@,
            Error::DataPlane(s) => "数据面操作失败: "@ + s@,
            Error::Token(s) => s@,
            Error::Link(s) => s@,
            Error::Internal(s) => s@,
        }
    }

    /// The text that users see.
    pub fn to_user_string(&self) -> (r: String)
        ensures
            r@ == self.text(),
    {
        match self {
            Error::Message(s) => s.clone(),
            Error::SessionNotFound(s) => join3("会话 ", s.as_str(), " 不存在"),
            Error::PinRequired => "会话需要访问码（PIN），请先 authorize".to_owned(),
            Error::PinMismatch => "访问码错误".to_owned(),
            Error::DataPlane(s) => join2("数据面操作失败: ", s.as_str()),
            Error::Token(s) => s.clone(),
            Error::Link(s) => s.clone(),
            Error::Internal(s) => s.clone(),
        }
    }
}

impl From<AuthError> for Error {
    fn from(e: AuthError) -> (r: Self) {
        match e {
            AuthError::CodeRequired => Error::PinRequired,
            AuthError::CodeMismatch => Error::PinMismatch,
        }
    }
}

impl vstd::std_specs::convert::FromSpecImpl<AuthError> for Error {
    open spec fn obeys_from_spec() -> bool {
        true
    }

    open spec fn from_spec(e: AuthError) -> Self {
        match e {
            AuthError::CodeRequired => Error::PinRequired,
            AuthError::CodeMismatch => Error::PinMismatch,
        }
    }
}

/// An error while a stream is being watched.
#[derive(Debug)]
pub enum WatchError {
    /// The address cannot be understood.
    InvalidUrl(String),
    /// The transport could not connect.
    Connect(String),
    /// The watch request could not be sent.
    SendWatch(String),
    /// The relay refused.
    Rejected(String),
    /// The relay did not get ready.
    WaitReady(String),
    /// The relay closed the connection first.
    Closed,
}

impl WatchError {
    /// The text that users see.
    pub open spec fn text(&self) -> Seq<char> {
        match self {
            WatchError::InvalidUrl(s) => "无法解析中继地址: "@ + s@,
            WatchError::Connect(s) => "连接中继失败: "@ + s@,
            WatchError::SendWatch(s) => "发送 Watch 请求失败: "@ + s@,
            WatchError::Rejected(s) => "中继拒绝: "@ + s@,
            WatchError::WaitReady(s) => "等待中继就绪失败: "@ + s@,
            WatchError::Closed => "中继连接已关闭"@,
        }
    }

    /// The text that users see.
    pub fn to_user_string(&self) -> (r: String)
        ensures
            r@ == self.text(),
    {
        match self {
            WatchError::InvalidUrl(s) => join2("无法解析中继地址: ", s.as_str()),
            WatchError::Connect(s) => join2("连接中继失败: ", s.as_str()),
            WatchError::SendWatch(s) => join2("发送 Watch 请求失败: ", s.as_str()),
            WatchError::Rejected(s) => join2("中继拒绝: ", s.as_str()),
            WatchError::WaitReady(s) => join2("等待中继就绪失败: ", s.as_str()),
            WatchError::Closed => "中继连接已关闭".to_owned(),
        }
    }
}

/// An error of an operation on the relay.
#[derive(Debug)]
pub enum RelayOpError {
    /// A proxy of that name is running.
    ProxyExists(String),
    /// A stream of that name is running.
    StreamExists(String),
}

impl RelayOpError {
    /// The text that users see.
    pub open spec fn text(&self) -> Seq<char> {
        match self {
            RelayOpError::ProxyExists(s) => "本地已有代理流 "@ + s@,
            RelayOpError::StreamExists(s) => "本地已有流 "@ + s@ + "（推流或代理）"@,
        }
    }

    /// The text that users see.
    pub fn to_user_string(&self) -> (r: String)
        ensures
            r@ == self.text(),
    {
        match self {
            RelayOpError::ProxyExists(s) => join2("本地已有代理流 ", s.as_str()),
            RelayOpError::StreamExists(s) => join3("本地已有流 ", s.as_str(), "（推流或代理）"),
        }
    }
}

/// Users read every word that an error came with, and a ready text unchanged.
pub proof fn law_user_reads_what_went_wrong(e: &Error, s: String, r: String, i: int)
    requires
        call_ensures(Error::to_user_string, (e,), r),
        0 <= i < s@.len(),
    ensures
        e == Error::Message(s) || e == Error::Token(s) || e == Error::Link(s) || e
            == Error::Internal(s) ==> r@ == s@,
        e == Error::SessionNotFound(s) ==> r@.contains(s@[i]) && r@.len() > s@.len(),
        e == Error::DataPlane(s) ==> r@.len() > s@.len() && r@.skip(r@.len() - s@.len()) == s@,
{
    reveal_strlit("会话 ");
    reveal_strlit(" 不存在");
    reveal_strlit("数据面操作失败: ");
    if e == Error::SessionNotFound(s) {
        assert(r@["会话 "@.len() + i] == s@[i]);
    }
    if e == Error::DataPlane(s) {
        assert(r@.skip(r@.len() - s@.len()) =~= s@);
    }
}

/// A user can tell a missing access code from a wrong one.
pub proof fn law_missing_and_wrong_code_read_differently(
    required: &Error,
    mismatch: &Error,
    a: String,
    b: String,
)
    requires
        *required == Error::PinRequired,
        *mismatch == Error::PinMismatch,
        call_ensures(Error::to_user_string, (required,), a),
        call_ensures(Error::to_user_string, (mismatch,), b),
    ensures
        a@ != b@,
        a@.len() > 0 && b@.len() > 0,
{
    reveal_strlit("会话需要访问码（PIN），请先 authorize");
    reveal_strlit("访问码错误");
}

/// A refusal of an access code stays what it was.
pub proof fn law_refused_code_stays_what_it_was(e: AuthError, r: Error)
    requires
        call_ensures(<Error as From<AuthError>>::from, (e,), r),
    ensures
        e is CodeRequired <==> r is PinRequired,
        e is CodeMismatch <==> r is PinMismatch,
{
}

/// What kept a stream from being watched stands at the end of the text that the user reads.
pub proof fn law_user_reads_why_nothing_is_watched(e: &WatchError, s: String, r: String)
    requires
        call_ensures(WatchError::to_user_string, (e,), r),
        e == WatchError::InvalidUrl(s) || e == WatchError::Connect(s) || e == WatchError::SendWatch(
            s,
        ) || e == WatchError::Rejected(s) || e == WatchError::WaitReady(s),
    ensures
        r@.len() > s@.len(),
        r@.skip(r@.len() - s@.len()) == s@,
{
    reveal_strlit("无法解析中继地址: ");
    reveal_strlit("连接中继失败: ");
    reveal_strlit("发送 Watch 请求失败: ");
    reveal_strlit("中继拒绝: ");
    reveal_strlit("等待中继就绪失败: ");
    assert(r@.skip(r@.len() - s@.len()) =~= s@);
}

} // verus!
