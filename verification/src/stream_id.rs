//! The names of streams: each tells the endpoint and how its data is carried and read.

use vstd::prelude::*;

use crate::message::{EndpointId, MediaKind, PickRule, ReliabilityProfile};
use crate::text::{dec, decimal, join2, join3, lemma_numeral_injective};

verus! {

/// The short form of a profile in the name of a stream.
pub open spec fn profile_code(p: ReliabilityProfile) -> Seq<char> {
    match p {
        ReliabilityProfile::Lossless => "ll"@,
        ReliabilityProfile::Lossy => "ly"@,
        ReliabilityProfile::Adaptive => "ad"@,
    }
}

/// The short form of a pick rule in the name of a stream.
pub open spec fn pick_code(p: PickRule) -> Seq<char> {
    match p {
        PickRule::Realtime => "rt"@,
        PickRule::StrictOrdered => "so"@,
    }
}

/// The name of the stream of an endpoint: nothing but the endpoint, its profile and its pick rule
/// goes into it, so that every node derives the same one.
pub open spec fn stream_id_of(id: EndpointId, profile: ReliabilityProfile, pick: PickRule) -> Seq<
    char,
> {
    "ep-"@ + id.kind.label() + "-"@ + profile_code(profile) + "-"@ + pick_code(pick) + "-"@ + dec(
        id.id as nat,
    )
}

/// The name of the stream of an endpoint.
pub fn derive_stream_id(id: EndpointId, profile: ReliabilityProfile, pick: PickRule) -> (r: String)
    ensures
        r@ == stream_id_of(id, profile, pick),
{
    let p: &str = match profile {
        ReliabilityProfile::Lossless => "ll",
        ReliabilityProfile::Lossy => "ly",
        ReliabilityProfile::Adaptive => "ad",
    };
    let k: &str = match pick {
        PickRule::Realtime => "rt",
        PickRule::StrictOrdered => "so",
    };
    let a: String = join3("ep-", id.kind.as_str(), "-");
    let b: String = join3(a.as_str(), p, "-");
    let c: String = join3(b.as_str(), k, "-");
    join2(c.as_str(), decimal(id.id as u64).as_str())
}

/// The label of a media kind has no hyphen and no colon, and different kinds have different
/// labels.
pub proof fn lemma_labels(a: MediaKind, b: MediaKind)
    ensures
        forall|i: int| 0 <= i < a.label().len() ==> #[trigger] a.label()[i] != '-' && a.label()[i]
            != ':',
        a.label() == b.label() ==> a == b,
{
    reveal_strlit("screen");
    reveal_strlit("window");
    reveal_strlit("camera");
    reveal_strlit("mic");
    reveal_strlit("systemAudio");
    reveal_strlit("file");
    reveal_strlit("clipboard");
    reveal_strlit("input");
    reveal_strlit("service");
    if a.label() == b.label() {
        assert(a.label().len() == b.label().len());
        assert(a.label()[0] == b.label()[0]);
    }
}

/// Two texts that are each a part without `c`, then `c`, then a rest, are equal only when both the
/// parts and the rests are.
pub proof fn lemma_split_at(a: Seq<char>, b: Seq<char>, x: Seq<char>, y: Seq<char>, c: char)
    requires
        a + seq![c] + x == b + seq![c] + y,
        forall|i: int| 0 <= i < a.len() ==> #[trigger] a[i] != c,
        forall|i: int| 0 <= i < b.len() ==> #[trigger] b[i] != c,
    ensures
        a == b,
        x == y,
{
    let s = a + seq![c] + x;
    let t = b + seq![c] + y;
    assert(s[a.len() as int] == c);
    assert(t[b.len() as int] == c);
    if a.len() < b.len() {
        assert(t[a.len() as int] == b[a.len() as int]);
    }
    if b.len() < a.len() {
        assert(s[b.len() as int] == a[b.len() as int]);
    }
    assert(s.take(a.len() as int) =~= a);
    assert(t.take(a.len() as int) =~= b);
    assert(s.skip(a.len() as int + 1) =~= x);
    assert(t.skip(a.len() as int + 1) =~= y);
}

/// Streams with the same name are streams of the same endpoint, carried and read in the same way.
pub proof fn law_stream_id_tells_endpoint(
    a: EndpointId,
    p: ReliabilityProfile,
    k: PickRule,
    b: EndpointId,
    q: ReliabilityProfile,
    l: PickRule,
)
    requires
        stream_id_of(a, p, k) == stream_id_of(b, q, l),
    ensures
        a == b,
        p == q,
        k == l,
{
    reveal_strlit("ep-");
    reveal_strlit("-");
    reveal_strlit("ll");
    reveal_strlit("ly");
    reveal_strlit("ad");
    reveal_strlit("rt");
    reveal_strlit("so");
    let dash = seq!['-'];
    assert("-"@ =~= dash);
    let x = profile_code(p) + dash + pick_code(k) + dash + dec(a.id as nat);
    let y = profile_code(q) + dash + pick_code(l) + dash + dec(b.id as nat);
    let s = stream_id_of(a, p, k).skip(3);
    let t = stream_id_of(b, q, l).skip(3);
    assert(s =~= a.kind.label() + dash + x);
    assert(t =~= b.kind.label() + dash + y);
    lemma_labels(a.kind, b.kind);
    lemma_labels(b.kind, a.kind);
    lemma_split_at(a.kind.label(), b.kind.label(), x, y, '-');
    assert(x.take(2) =~= profile_code(p));
    assert(y.take(2) =~= profile_code(q));
    assert(profile_code(p)[0] == profile_code(q)[0] && profile_code(p)[1] == profile_code(q)[1]);
    assert(x.subrange(3, 5) =~= pick_code(k));
    assert(y.subrange(3, 5) =~= pick_code(l));
    assert(pick_code(k)[0] == pick_code(l)[0]);
    assert(x.skip(6) =~= dec(a.id as nat));
    assert(y.skip(6) =~= dec(b.id as nat));
    lemma_numeral_injective(a.id as nat, b.id as nat, 10);
}

/// The name of a stream tells what it is a stream of: different endpoints, profiles or pick rules have
/// streams of different names, and whoever derives the name of the same one gets the same.
pub proof fn law_stream_names_tell_streams_apart(
    a: EndpointId,
    p: ReliabilityProfile,
    k: PickRule,
    s: String,
    b: EndpointId,
    q: ReliabilityProfile,
    l: PickRule,
    t: String,
)
    requires
        call_ensures(derive_stream_id, (a, p, k), s),
        call_ensures(derive_stream_id, (b, q, l), t),
    ensures
        s@ == t@ <==> a == b && p == q && k == l,
        s@.len() >= 3 && s@.take(3) == "ep-"@,
{
    if s@ == t@ {
        law_stream_id_tells_endpoint(a, p, k, b, q, l);
    }
    reveal_strlit("ep-");
    assert(s@.take(3) =~= "ep-"@);
}

} // verus!
