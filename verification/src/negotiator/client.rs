//! Asking another node for access.

use vstd::prelude::*;

use crate::negotiator::server::PENDING_TIMEOUT_SECS;
use crate::text::{dec, decimal, join3, lemma_numeral_injective};

verus! {

/// How long an answer is waited for, in seconds.
pub const HANDSHAKE_TIMEOUT_SECS: u64 = 70;

/// The address at which a node takes requests for access.
pub fn request_url(host: &str, port: u16) -> (r: String)
    ensures
        r@ == "http://"@ + host@ + ":"@ + dec(port as nat) + "/api/negotiator/request"@,
{
    let a: String = join3("http://", host, ":");
    join3(a.as_str(), decimal(port as u64).as_str(), "/api/negotiator/request")
}

/// Whoever asks waits longer than the user has to answer: a request that waits for the user is not
/// given up before it is answered.
pub proof fn law_handshake_outlasts_confirmation()
    ensures
        HANDSHAKE_TIMEOUT_SECS > PENDING_TIMEOUT_SECS,
{
}

/// The address at which a node is asked begins with the protocol and the host, and nodes that
/// listen at different ports are asked at different addresses.
pub proof fn law_node_is_asked_at_its_address(
    host: &str,
    port: u16,
    other: u16,
    a: String,
    b: String,
)
    requires
        call_ensures(request_url, (host, port), a),
        call_ensures(request_url, (host, other), b),
    ensures
        a@.len() > 7 + host@.len(),
        a@.take(7) == seq!['h', 't', 't', 'p', ':', '/', '/'],
        a@.subrange(7, 7int + host@.len()) == host@,
        a@[7int + host@.len()] == ':',
        a@ == b@ ==> port == other,
{
    reveal_strlit("http://");
    reveal_strlit(":");
    let front = "http://"@ + host@ + ":"@;
    let path = "/api/negotiator/request"@;
    assert(a@.take(7) =~= seq!['h', 't', 't', 'p', ':', '/', '/']);
    assert(a@.subrange(7, 7int + host@.len()) =~= host@);
    if a@ == b@ {
        let n = front.len() as int;
        assert(a@.subrange(n, a@.len() - path.len()) =~= dec(port as nat));
        assert(b@.subrange(n, b@.len() - path.len()) =~= dec(other as nat));
        lemma_numeral_injective(port as nat, other as nat, 10);
    }
}

} // verus!
