//! Addresses of nodes.

use vstd::prelude::*;

use crate::stream_id::lemma_split_at;
use crate::text::{dec, decimal, join3, lemma_numeral_injective, lemma_parse_dec};

verus! {

/// An IPv4 address: four octets.
#[derive(Debug, Clone, Copy, PartialEq, Eq, Structural)]
pub struct Ipv4 {
    pub a: u8,
    pub b: u8,
    pub c: u8,
    pub d: u8,
}

/// An IPv6 address, as a number.
#[derive(Debug, Clone, Copy, PartialEq, Eq, Structural)]
pub struct Ipv6 {
    pub bits: u128,
}

/// An address of either kind.
#[derive(Debug, Clone, Copy, PartialEq, Eq, Structural)]
pub enum IpAddr {
    V4(Ipv4),
    V6(Ipv6),
}

impl Ipv4 {
    pub fn new(a: u8, b: u8, c: u8, d: u8) -> (r: Ipv4)
        ensures
            r == (Ipv4 { a, b, c, d }),
    {
        Ipv4 { a, b, c, d }
    }

    /// The address of the node itself.
    pub open spec fn loopback() -> Ipv4 {
        Ipv4 { a: 127, b: 0, c: 0, d: 1 }
    }

    /// Whether the address holds on one link only: 169.254.0.0/16.
    pub open spec fn link_local(self) -> bool {
        self.a == 169 && self.b == 254
    }

    /// Whether the address names the node itself: 127.0.0.0/8.
    pub open spec fn is_loop(self) -> bool {
        self.a == 127
    }

    /// Whether the address was made up by a proxy: 198.18.0.0/15.
    pub open spec fn made_up(self) -> bool {
        self.a == 198 && (self.b == 18 || self.b == 19)
    }

    /// Whether the address is none at all.
    pub open spec fn is_none(self) -> bool {
        self.a == 0 && self.b == 0 && self.c == 0 && self.d == 0
    }

    /// The address as text: four decimal numbers with dots between them.
    pub open spec fn text(self) -> Seq<char> {
        dec(self.a as nat) + "."@ + dec(self.b as nat) + "."@ + dec(self.c as nat) + "."@ + dec(
            self.d as nat,
        )
    }

    /// The address as text.
    pub fn to_text(self) -> (r: String)
        ensures
            r@ == self.text(),
    {
        let x: String = join3(decimal(self.a as u64).as_str(), ".", decimal(self.b as u64).as_str());
        let y: String = join3(x.as_str(), ".", decimal(self.c as u64).as_str());
        join3(y.as_str(), ".", decimal(self.d as u64).as_str())
    }

    /// The network of 256 addresses that the address belongs to.
    pub open spec fn network(self) -> Ipv4 {
        Ipv4 { a: self.a, b: self.b, c: self.c, d: 0 }
    }
}

/// The first sixteen bits of an IPv6 address.
pub open spec fn first_segment(x: Ipv6) -> int {
    x.bits as int / 0x1_0000_0000_0000_0000_0000_0000_0000int
}

impl IpAddr {
    /// Whether the address holds on one link only: 169.254.0.0/16, or fe80::/10.
    pub open spec fn link_local(self) -> bool {
        match self {
            IpAddr::V4(x) => x.link_local(),
            IpAddr::V6(x) => 0xfe80 <= first_segment(x) <= 0xfebf,
        }
    }

    /// Whether the address is none at all.
    pub open spec fn is_none(self) -> bool {
        match self {
            IpAddr::V4(x) => x.is_none(),
            IpAddr::V6(x) => x.bits == 0,
        }
    }

    /// Whether the address holds on one link only.
    pub fn is_link_local(self) -> (r: bool)
        ensures
            r == self.link_local(),
    {
        match self {
            IpAddr::V4(x) => x.a == 169 && x.b == 254,
            IpAddr::V6(x) => {
                let s: u128 = x.bits / 0x1_0000_0000_0000_0000_0000_0000_0000;
                0xfe80 <= s && s <= 0xfebf
            },
        }
    }

    /// Whether the address is none at all.
    pub fn is_unspecified(self) -> (r: bool)
        ensures
            r == self.is_none(),
    {
        match self {
            IpAddr::V4(x) => x.a == 0 && x.b == 0 && x.c == 0 && x.d == 0,
            IpAddr::V6(x) => x.bits == 0,
        }
    }
}

/// Whether two addresses belong to the same network of 256 addresses.
pub fn ipv4_same_subnet(a: Ipv4, b: Ipv4) -> (r: bool)
    ensures
        r == (a.network() == b.network()),
{
    a.a == b.a && a.b == b.b && a.c == b.c
}

/// Two addresses are of one network exactly when they agree in all but their last number.
pub proof fn law_network_is_all_but_the_last_number(x: Ipv4, y: Ipv4, r: bool)
    requires
        call_ensures(ipv4_same_subnet, (x, y), r),
    ensures
        r <==> x.a == y.a && x.b == y.b && x.c == y.c,
{
}

/// Addresses that hold on one link only are those that begin with 169.254, or, of the other kind, with
/// ten bits that are fixed; the address that is none is all zeros.
pub proof fn law_special_addresses(x: Ipv4, y: Ipv6, a: bool, b: bool, c: bool, d: bool)
    requires
        call_ensures(IpAddr::is_link_local, (IpAddr::V4(x),), a),
        call_ensures(IpAddr::is_link_local, (IpAddr::V6(y),), b),
        call_ensures(IpAddr::is_unspecified, (IpAddr::V4(x),), c),
        call_ensures(IpAddr::is_unspecified, (IpAddr::V6(y),), d),
    ensures
        a <==> x.a == 169 && x.b == 254,
        b <==> 0xfe80_0000_0000_0000_0000_0000_0000_0000 <= y.bits
            <= 0xfebf_ffff_ffff_ffff_ffff_ffff_ffff_ffff,
        c <==> x.a == 0 && x.b == 0 && x.c == 0 && x.d == 0,
        d <==> y.bits == 0,
{
}

/// The text of an address is read back as the address: two addresses with the same text are the same.
pub proof fn law_address_text_tells_the_address(x: Ipv4, y: Ipv4, s: String, t: String)
    requires
        call_ensures(Ipv4::to_text, (x,), s),
        call_ensures(Ipv4::to_text, (y,), t),
        s@ == t@,
    ensures
        x == y,
{
    reveal_strlit(".");
    let dot = seq!['.'];
    assert("."@ =~= dot);
    lemma_no_dot(x.a as nat);
    lemma_no_dot(x.b as nat);
    lemma_no_dot(x.c as nat);
    lemma_no_dot(y.a as nat);
    lemma_no_dot(y.b as nat);
    lemma_no_dot(y.c as nat);
    let (a1, b1, c1, d1) = (dec(x.a as nat), dec(x.b as nat), dec(x.c as nat), dec(x.d as nat));
    let (a2, b2, c2, d2) = (dec(y.a as nat), dec(y.b as nat), dec(y.c as nat), dec(y.d as nat));
    assert(s@ =~= a1 + dot + (b1 + dot + (c1 + dot + d1)));
    assert(t@ =~= a2 + dot + (b2 + dot + (c2 + dot + d2)));
    lemma_split_at(a1, a2, b1 + dot + (c1 + dot + d1), b2 + dot + (c2 + dot + d2), '.');
    lemma_split_at(b1, b2, c1 + dot + d1, c2 + dot + d2, '.');
    lemma_split_at(c1, c2, d1, d2, '.');
    lemma_numeral_injective(x.a as nat, y.a as nat, 10);
    lemma_numeral_injective(x.b as nat, y.b as nat, 10);
    lemma_numeral_injective(x.c as nat, y.c as nat, 10);
    lemma_numeral_injective(x.d as nat, y.d as nat, 10);
}

proof fn lemma_no_dot(n: nat)
    ensures
        forall|i: int| 0 <= i < dec(n).len() ==> #[trigger] dec(n)[i] != '.',
{
    lemma_parse_dec(n, n);
}

} // verus!
