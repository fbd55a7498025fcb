//! Finding nodes by multicast DNS.

use vstd::prelude::*;

use crate::discovery::addr::{ipv4_same_subnet, IpAddr, Ipv4};
use crate::table::Table;
use crate::text::{join2, join3};

verus! {

/// The type of the service under which nodes are announced.
pub const SERVICE_TYPE: &'static str = "_stross._tcp.local.";

/// How long nodes are looked for, in seconds.
pub const BROWSE_TIMEOUT_SECS: u64 = 4;

/// The addresses of a list that hold on more than one link.
pub open spec fn beyond_link(v: Seq<IpAddr>) -> Seq<IpAddr>
    decreases v.len(),
{
    if v.len() == 0 {
        Seq::empty()
    } else if v.last().link_local() {
        beyond_link(v.drop_last())
    } else {
        beyond_link(v.drop_last()).push(v.last())
    }
}

/// The addresses that are announced: all that hold on more than one link. When there is none of
/// these, all are announced as they are; without any address, that of the node itself.
pub open spec fn announced_addrs(ips: Seq<IpAddr>) -> Seq<IpAddr> {
    if ips.len() == 0 {
        seq![IpAddr::V4(Ipv4::loopback())]
    } else if beyond_link(ips).len() == 0 {
        ips
    } else {
        beyond_link(ips)
    }
}

fn clone_addrs(v: &Vec<IpAddr>) -> (r: Vec<IpAddr>)
    ensures
        r@ == v@,
{
    let r = v.clone();
    assert(r@ =~= v@);
    r
}

/// The addresses that are announced.
pub fn broadcast_addrs(ips: &Vec<IpAddr>) -> (r: Vec<IpAddr>)
    ensures
        r@ == announced_addrs(ips@),
{
    let mut r: Vec<IpAddr> = Vec::new();
    if ips.len() == 0 {
        r.push(IpAddr::V4(Ipv4::new(127, 0, 0, 1)));
        assert(r@ =~= announced_addrs(ips@));
        return r;
    }
    let mut i: usize = 0;
    assert(ips@.take(0) =~= Seq::<IpAddr>::empty());
    while i < ips.len()
        invariant
            i <= ips@.len(),
            r@ == beyond_link(ips@.take(i as int)),
        decreases ips.len() - i,
    {
        proof {
            let next = ips@.take(i as int + 1);
            assert(next.drop_last() =~= ips@.take(i as int));
            assert(next.last() == ips@[i as int]);
        }
        let ip: IpAddr = ips[i];
        if !ip.is_link_local() {
            r.push(ip);
        }
        i += 1;
    }
    assert(ips@.take(ips@.len() as int) =~= ips@);
    if r.len() == 0 {
        clone_addrs(ips)
    } else {
        r
    }
}

/// Whether an address belongs to a network that this node has an address in.
pub open spec fn near(self_ips: Seq<IpAddr>, ip: IpAddr) -> bool {
    ip matches IpAddr::V4(x) && exists|i: int|
        0 <= i < self_ips.len() && (#[trigger] self_ips[i] matches IpAddr::V4(s) && s.network()
            == x.network())
}

/// How good an address is for a connection: best in a network of this node, then IPv4.
pub open spec fn preference(self_ips: Seq<IpAddr>, ip: IpAddr) -> int {
    if near(self_ips, ip) {
        2
    } else if ip is V4 {
        1
    } else {
        0
    }
}

/// Whether the `k`-th address is the one to connect to: none is better, and none before it is as
/// good.
pub open spec fn is_chosen(self_ips: Seq<IpAddr>, reachable: Seq<IpAddr>, k: int) -> bool {
    &&& 0 <= k < reachable.len()
    &&& forall|j: int|
        0 <= j < reachable.len() ==> preference(self_ips, #[trigger] reachable[j]) <= preference(
            self_ips,
            reachable[k],
        )
    &&& forall|j: int|
        0 <= j < k ==> preference(self_ips, #[trigger] reachable[j]) < preference(
            self_ips,
            reachable[k],
        )
}

fn is_near(self_ips: &Vec<IpAddr>, ip: IpAddr) -> (r: bool)
    ensures
        r == near(self_ips@, ip),
{
    let x: Ipv4 = match ip {
        IpAddr::V4(x) => x,
        IpAddr::V6(_) => {
            return false;
        },
    };
    let mut i: usize = 0;
    while i < self_ips.len()
        invariant
            ip == IpAddr::V4(x),
            i <= self_ips@.len(),
            forall|j: int|
                0 <= j < i ==> (#[trigger] self_ips@[j] matches IpAddr::V4(s) ==> s.network()
                    != x.network()),
        decreases self_ips.len() - i,
    {
        match self_ips[i] {
            IpAddr::V4(s) => {
                if ipv4_same_subnet(s, x) {
                    assert(self_ips@[i as int] == IpAddr::V4(s));
                    return true;
                }
            },
            IpAddr::V6(_) => {},
        }
        i += 1;
    }
    false
}

fn rank(self_ips: &Vec<IpAddr>, ip: IpAddr) -> (r: u8)
    ensures
        r == preference(self_ips@, ip),
{
    if is_near(self_ips, ip) {
        2
    } else {
        match ip {
            IpAddr::V4(_) => 1,
            IpAddr::V6(_) => 0,
        }
    }
}

/// The address to connect to: the first one in a network of this node, else the first IPv4 address,
/// else the first one.
pub fn select_reachable_ip_from(self_ips: &Vec<IpAddr>, reachable: &Vec<IpAddr>) -> (r: Option<
    IpAddr,
>)
    ensures
        match r {
            None => reachable@.len() == 0,
            Some(ip) => exists|k: int| #[trigger]
                is_chosen(self_ips@, reachable@, k) && ip == reachable@[k],
        },
{
    if reachable.len() == 0 {
        return None;
    }
    let mut best: usize = 0;
    let mut best_rank: u8 = rank(self_ips, reachable[0]);
    let mut i: usize = 1;
    while i < reachable.len()
        invariant
            1 <= i <= reachable@.len(),
            best < i,
            best_rank == preference(self_ips@, reachable@[best as int]),
            forall|j: int|
                0 <= j < i ==> preference(self_ips@, #[trigger] reachable@[j]) <= best_rank,
            forall|j: int|
                0 <= j < best ==> preference(self_ips@, #[trigger] reachable@[j]) < best_rank,
        decreases reachable.len() - i,
    {
        let k: u8 = rank(self_ips, reachable[i]);
        if k > best_rank {
            best = i;
            best_rank = k;
        }
        i += 1;
    }
    assert(is_chosen(self_ips@, reachable@, best as int));
    Some(reachable[best])
}

/// The one that was chosen is determined by the lists.
pub proof fn law_choice_is_unique(self_ips: Seq<IpAddr>, reachable: Seq<IpAddr>, k: int, l: int)
    requires
        is_chosen(self_ips, reachable, k),
        is_chosen(self_ips, reachable, l),
    ensures
        k == l,
{
    if k < l {
        assert(preference(self_ips, reachable[k]) < preference(self_ips, reachable[l]));
    } else if l < k {
        assert(preference(self_ips, reachable[l]) < preference(self_ips, reachable[k]));
    }
}

proof fn lemma_beyond_link(v: Seq<IpAddr>)
    ensures
        forall|ip: IpAddr| #[trigger]
            beyond_link(v).contains(ip) <==> v.contains(ip) && !ip.link_local(),
    decreases v.len(),
{
    if v.len() > 0 {
        let p = v.drop_last();
        lemma_beyond_link(p);
        assert(v =~= p.push(v.last()));
        assert forall|ip: IpAddr| #[trigger]
            beyond_link(v).contains(ip) <==> v.contains(ip) && !ip.link_local() by {
            crate::order::lemma_push_contains(p, v.last(), ip);
            crate::order::lemma_push_contains(beyond_link(p), v.last(), ip);
        }
    }
}

/// A node always announces some address, and only those of its own; one that holds on one link only
/// is announced when there is no other.
pub proof fn law_announced_addresses(ips: Seq<IpAddr>, ip: IpAddr)
    ensures
        announced_addrs(ips).len() > 0,
        ips.len() > 0 && announced_addrs(ips).contains(ip) ==> ips.contains(ip),
        ips.contains(ip) && !ip.link_local() ==> announced_addrs(ips).contains(ip),
        announced_addrs(ips).contains(ip) && ip.link_local() ==> forall|other: IpAddr|
            ips.contains(other) ==> #[trigger] other.link_local(),
{
    lemma_beyond_link(ips);
    if ips.len() == 0 {
        let all = announced_addrs(ips);
        assert forall|x: IpAddr| all.contains(x) implies x == IpAddr::V4(Ipv4::loopback()) by {
            let i = choose|i: int| 0 <= i < all.len() && all[i] == x;
        }
    } else if beyond_link(ips).len() == 0 {
        assert forall|other: IpAddr| ips.contains(other) implies #[trigger] other.link_local() by {
            if !other.link_local() {
                assert(beyond_link(ips).contains(other));
            }
        }
    }
}

/// What is known about a service while nodes are looked for.
pub struct Resolving {
    pub addrs: Vec<IpAddr>,
    pub port: u16,
    /// What the service says about itself.
    pub txt: Vec<(String, String)>,
}

/// What is known about a service, as a mathematical value.
pub struct ResolvingModel {
    pub addrs: Seq<IpAddr>,
    pub port: u16,
    pub txt: Seq<(String, String)>,
}

impl View for Resolving {
    type V = ResolvingModel;

    open spec fn view(&self) -> ResolvingModel {
        ResolvingModel { addrs: self.addrs@, port: self.port, txt: self.txt@ }
    }
}

/// What happens while nodes are looked for.
pub enum BrowseEvent {
    /// A service was resolved, maybe not for the first time.
    Resolved { fullname: String, port: u16, txt: Vec<(String, String)>, addrs: Vec<IpAddr> },
    /// A service is gone.
    Removed(String),
    Other,
}

/// Whether an address that was resolved is kept: one that can be reached from elsewhere.
pub open spec fn is_kept(ip: IpAddr) -> bool {
    !ip.link_local() && !ip.is_none()
}

/// The addresses that are known after more were resolved: new ones that can be reached are added
/// behind.
pub open spec fn merged_addrs(known: Seq<IpAddr>, more: Seq<IpAddr>) -> Seq<IpAddr>
    decreases more.len(),
{
    if more.len() == 0 {
        known
    } else {
        let before = merged_addrs(known, more.drop_last());
        let ip = more.last();
        if is_kept(ip) && !before.contains(ip) {
            before.push(ip)
        } else {
            before
        }
    }
}

/// What is known after something happened.
pub open spec fn browse_stepped(
    pre: Map<Seq<char>, ResolvingModel>,
    event: BrowseEvent,
) -> Map<Seq<char>, ResolvingModel> {
    match event {
        BrowseEvent::Resolved { fullname, port, txt, addrs } => {
            let known = if pre.dom().contains(fullname@) {
                pre[fullname@].addrs
            } else {
                Seq::empty()
            };
            pre.insert(
                fullname@,
                ResolvingModel { addrs: merged_addrs(known, addrs@), port, txt: txt@ },
            )
        },
        BrowseEvent::Removed(fullname) => pre.remove(fullname@),
        BrowseEvent::Other => pre,
    }
}

/// The models of what is known.
pub open spec fn resolving_models(m: Map<Seq<char>, Resolving>) -> Map<Seq<char>, ResolvingModel> {
    m.map_values(|x: Resolving| x@)
}

/// The services that were found so far.
pub struct Browse {
    found: Table<String, Resolving>,
}

impl View for Browse {
    type V = Map<Seq<char>, ResolvingModel>;

    closed spec fn view(&self) -> Map<Seq<char>, ResolvingModel> {
        resolving_models(self.found@)
    }
}

/// A service that was found.
#[derive(Debug)]
pub struct Discovered {
    pub instance: String,
    pub ip: IpAddr,
    pub port: u16,
    pub txt: Vec<(String, String)>,
}

fn has_addr(v: &Vec<IpAddr>, ip: IpAddr) -> (r: bool)
    ensures
        r == v@.contains(ip),
{
    let mut i: usize = 0;
    while i < v.len()
        invariant
            i <= v@.len(),
            forall|j: int| 0 <= j < i ==> v@[j] != ip,
        decreases v.len() - i,
    {
        if v[i] == ip {
            assert(v@[i as int] == ip);
            return true;
        }
        i += 1;
    }
    false
}

fn add_addrs(known: Vec<IpAddr>, more: &Vec<IpAddr>) -> (r: Vec<IpAddr>)
    ensures
        r@ == merged_addrs(known@, more@),
{
    let mut r = known;
    let mut i: usize = 0;
    assert(more@.take(0) =~= Seq::<IpAddr>::empty());
    while i < more.len()
        invariant
            i <= more@.len(),
            r@ == merged_addrs(known@, more@.take(i as int)),
        decreases more.len() - i,
    {
        proof {
            let next = more@.take(i as int + 1);
            assert(next.drop_last() =~= more@.take(i as int));
            assert(next.last() == more@[i as int]);
        }
        let ip: IpAddr = more[i];
        if !ip.is_link_local() && !ip.is_unspecified() && !has_addr(&r, ip) {
            r.push(ip);
        }
        i += 1;
    }
    assert(more@.take(more@.len() as int) =~= more@);
    r
}

impl Browse {
    pub closed spec fn wf(&self) -> bool {
        self.found.wf()
    }

    /// Nothing was found yet.
    pub fn new() -> (r: Browse)
        ensures
            r.wf(),
            r@ == Map::<Seq<char>, ResolvingModel>::empty(),
    {
        let r = Browse { found: Table::new() };
        assert(r@ =~= Map::<Seq<char>, ResolvingModel>::empty());
        r
    }

    /// Takes in what happened.
    pub fn on_event(&mut self, event: BrowseEvent)
        requires
            old(self).wf(),
        ensures
            final(self).wf(),
            final(self)@ == browse_stepped(old(self)@, event),
    {
        let ghost pre = self@;
        let ghost post = browse_stepped(pre, event);
        match event {
            BrowseEvent::Resolved { fullname, port, txt, addrs } => {
                let known: Vec<IpAddr> = match self.found.remove(&fullname) {
                    Some(x) => {
                        assert(pre[fullname@] == x@);
                        x.addrs
                    },
                    None => Vec::new(),
                };
                assert(pre.dom() =~= old(self).found@.dom());
                let entry = Resolving { addrs: add_addrs(known, &addrs), port, txt };
                let _ = self.found.insert(fullname, entry);
                assert(self@ =~= post);
            },
            BrowseEvent::Removed(fullname) => {
                let _ = self.found.remove(&fullname);
                assert(self@ =~= post);
            },
            BrowseEvent::Other => {},
        }
    }

    /// The services that were found, each once, with the address to connect to; those without an
    /// address that can be reached are left out.
    pub fn finish(self, self_ips: &Vec<IpAddr>) -> (r: Vec<Discovered>)
        requires
            self.wf(),
        ensures
            forall|i: int|
                0 <= i < r@.len() ==> {
                    let d = #[trigger] r@[i];
                    &&& self@.dom().contains(d.instance@)
                    &&& d.port == self@[d.instance@].port
                    &&& d.txt@ == self@[d.instance@].txt
                    &&& exists|k: int| #[trigger]
                        is_chosen(self_ips@, self@[d.instance@].addrs, k) && d.ip
                            == self@[d.instance@].addrs[k]
                },
            forall|i: int, j: int|
                #![trigger r@[i], r@[j]]
                0 <= i < j < r@.len() ==> r@[i].instance@ != r@[j].instance@,
            forall|name: Seq<char>| #[trigger]
                self@.dom().contains(name) && self@[name].addrs.len() > 0 ==> exists|i: int|
                    0 <= i < r@.len() && (#[trigger] r@[i]).instance@ == name,
    {
        let ghost all = self@;
        let mut rest = self.found;
        let mut r: Vec<Discovered> = Vec::new();
        let mut more: bool = true;
        while more
            invariant
                rest.wf(),
                forall|k: Seq<char>| #[trigger]
                    rest@.dom().contains(k) ==> all.dom().contains(k) && rest@[k]@ == all[k],
                forall|i: int|
                    0 <= i < r@.len() ==> {
                        let d = #[trigger] r@[i];
                        &&& all.dom().contains(d.instance@)
                        &&& !rest@.dom().contains(d.instance@)
                        &&& d.port == all[d.instance@].port
                        &&& d.txt@ == all[d.instance@].txt
                        &&& exists|k: int| #[trigger]
                            is_chosen(self_ips@, all[d.instance@].addrs, k) && d.ip
                                == all[d.instance@].addrs[k]
                    },
                forall|i: int, j: int|
                    #![trigger r@[i], r@[j]]
                    0 <= i < j < r@.len() ==> r@[i].instance@ != r@[j].instance@,
                forall|name: Seq<char>| #[trigger]
                    all.dom().contains(name) && all[name].addrs.len() > 0 ==> rest@.dom().contains(
                        name,
                    ) || exists|i: int| 0 <= i < r@.len() && (#[trigger] r@[i]).instance@ == name,
                !more ==> rest@.dom() == Set::<Seq<char>>::empty(),
            decreases
                    (if more {
                        1nat
                    } else {
                        0nat
                    }),
                    rest.keys().len(),
        {
            let ghost before = r@;
            let ghost rest0 = rest@;
            match rest.pop() {
                None => {
                    more = false;
                    assert(rest@.dom() =~= Set::<Seq<char>>::empty());
                },
                Some(e) => {
                    let ghost name = e.0@;
                    match select_reachable_ip_from(self_ips, &e.1.addrs) {
                        Some(ip) => {
                            r.push(
                                Discovered { instance: e.0, ip, port: e.1.port, txt: e.1.txt },
                            );
                            assert(r@.last().instance@ == name);
                        },
                        None => {},
                    }
                    proof {
                        assert forall|n: Seq<char>| #[trigger]
                            all.dom().contains(n) && all[n].addrs.len()
                                > 0 implies rest@.dom().contains(n) || exists|i: int|
                            0 <= i < r@.len() && (#[trigger] r@[i]).instance@ == n by {
                            if n == name {
                                assert(r@[before.len() as int].instance@ == n);
                            } else if !rest0.dom().contains(n) {
                                let i = choose|i: int|
                                    0 <= i < before.len() && (#[trigger] before[i]).instance@ == n;
                                assert(r@[i] == before[i]);
                            }
                        }
                    }
                },
            }
        }
        r
    }
}

/// Every address that can be reached is kept, once.
proof fn lemma_merged_addrs(known: Seq<IpAddr>, more: Seq<IpAddr>)
    requires
        known.no_duplicates(),
    ensures
        merged_addrs(known, more).no_duplicates(),
        forall|ip: IpAddr| #[trigger]
            merged_addrs(known, more).contains(ip) <==> known.contains(ip) || (more.contains(ip)
                && is_kept(ip)),
    decreases more.len(),
{
    if more.len() > 0 {
        let p = more.drop_last();
        let last = more.last();
        lemma_merged_addrs(known, p);
        let before = merged_addrs(known, p);
        assert(more =~= p.push(last));
        assert forall|ip: IpAddr| #[trigger]
            merged_addrs(known, more).contains(ip) <==> known.contains(ip) || (more.contains(ip)
                && is_kept(ip)) by {
            crate::order::lemma_push_contains(p, last, ip);
            crate::order::lemma_push_contains(before, last, ip);
        }
    }
}

/// However the addresses of a service come in, one after the other or at once, those that are known
/// in the end are the ones that can be reached, each once.
pub proof fn law_addresses_are_gathered(first: Seq<IpAddr>, second: Seq<IpAddr>, ip: IpAddr)
    ensures
        merged_addrs(merged_addrs(Seq::empty(), first), second).no_duplicates(),
        merged_addrs(merged_addrs(Seq::empty(), first), second).contains(ip) <==> (first.contains(ip)
            || second.contains(ip)) && is_kept(ip),
{
    lemma_merged_addrs(Seq::empty(), first);
    lemma_merged_addrs(merged_addrs(Seq::empty(), first), second);
}

/// A service as it is announced.
#[derive(Debug)]
pub struct ServiceRecord {
    pub fullname: String,
    pub instance: String,
    /// The name of the host that offers the service.
    pub host: String,
    pub addrs: Vec<IpAddr>,
    pub port: u16,
}

/// Whether a record announces a service.
pub open spec fn announces(r: ServiceRecord, d: Discovery) -> bool {
    &&& r.fullname@ == d.instance@ + "."@ + SERVICE_TYPE@
    &&& r.instance@ == d.instance@
    &&& r.host@ == d.host@
    &&& r.addrs@ == d.addrs@
    &&& r.port == d.port
}

/// An announcement that is being made.
#[derive(Debug)]
pub struct Discovery {
    /// The full name of the service, until the announcement is stopped.
    pub fullname: Option<String>,
    pub instance: String,
    pub host: String,
    pub addrs: Vec<IpAddr>,
    pub port: u16,
}

impl Discovery {
    /// Whether the announcement goes by the name of its instance.
    pub open spec fn wf(&self) -> bool {
        self.fullname matches Some(f) ==> f@ == self.instance@ + "."@ + SERVICE_TYPE@
    }

    /// Starts an announcement. The record is to be registered.
    pub fn start(instance: &str, ips: &Vec<IpAddr>, port: u16, hostname: &str) -> (r: (
        Discovery,
        ServiceRecord,
    ))
        ensures
            r.0.wf(),
            r.0.fullname is Some,
            r.0.instance@ == instance@,
            r.0.host@ == hostname@ + ".local."@,
            r.0.addrs@ == announced_addrs(ips@),
            r.0.port == port,
            announces(r.1, r.0),
    {
        let fullname: String = join3(instance, ".", SERVICE_TYPE);
        let d = Discovery {
            fullname: Some(fullname),
            instance: instance.to_owned(),
            host: join2(hostname, ".local."),
            addrs: broadcast_addrs(ips),
            port,
        };
        let record = d.record();
        (d, record)
    }

    fn record(&self) -> (r: ServiceRecord)
        ensures
            announces(r, *self),
    {
        ServiceRecord {
            fullname: join3(self.instance.as_str(), ".", SERVICE_TYPE),
            instance: self.instance.clone(),
            host: self.host.clone(),
            addrs: clone_addrs(&self.addrs),
            port: self.port,
        }
    }

    /// Announces the service anew, under the same name, so that what it says about itself is
    /// replaced; nothing is to be registered once the announcement was stopped.
    pub fn redefine(&self) -> (r: Option<ServiceRecord>)
        requires
            self.wf(),
        ensures
            r is Some <==> self.fullname is Some,
            r matches Some(x) ==> announces(x, *self) && x.fullname@ == self.fullname->0@,
    {
        if self.fullname.is_none() {
            return None;
        }
        Some(self.record())
    }

    /// Stops the announcement; the name is to be taken back, once.
    pub fn stop(&mut self) -> (r: Option<String>)
        requires
            old(self).wf(),
        ensures
            final(self).wf(),
            r == old(self).fullname,
            *final(self) == (Discovery { fullname: None, ..*old(self) }),
    {
        self.fullname.take()
    }
}

/// The address to connect to is one that was found: the first one in a network that this node has an
/// address in, if there is one; else the first IPv4 address; else the first one of all. There is none
/// only when none was found.
pub proof fn law_nearest_address_is_chosen(
    self_ips: &Vec<IpAddr>,
    reachable: &Vec<IpAddr>,
    r: Option<IpAddr>,
    k: int,
)
    requires
        call_ensures(select_reachable_ip_from, (self_ips, reachable), r),
        0 <= k < reachable@.len(),
    ensures
        r matches Some(ip) && reachable@.contains(ip),
        ({
            let x = reachable@[k];
            let in_own_network = |a: IpAddr|
                a is V4 && exists|i: int|
                    0 <= i < self_ips@.len() && (#[trigger] self_ips@[i]) is V4
                        && self_ips@[i]->V4_0.a == a->V4_0.a && self_ips@[i]->V4_0.b == a->V4_0.b
                        && self_ips@[i]->V4_0.c == a->V4_0.c;
            &&& in_own_network(x) && (forall|j: int|
                0 <= j < k ==> !in_own_network(#[trigger] reachable@[j])) ==> r == Some(x)
            &&& x is V4 && (forall|j: int|
                0 <= j < reachable@.len() ==> !in_own_network(#[trigger] reachable@[j])) && (
            forall|j: int| 0 <= j < k ==> !(#[trigger] reachable@[j] is V4)) ==> r == Some(x)
            &&& (forall|j: int| 0 <= j < reachable@.len() ==> !(#[trigger] reachable@[j] is V4))
                && k == 0 ==> r == Some(x)
        }),
{
    let c = choose|c: int| #[trigger]
        is_chosen(self_ips@, reachable@, c) && r == Some(reachable@[c]);
    let in_own_network = |a: IpAddr|
        a is V4 && exists|i: int|
            0 <= i < self_ips@.len() && (#[trigger] self_ips@[i]) is V4 && self_ips@[i]->V4_0.a
                == a->V4_0.a && self_ips@[i]->V4_0.b == a->V4_0.b && self_ips@[i]->V4_0.c
                == a->V4_0.c;
    assert forall|a: IpAddr| in_own_network(a) == #[trigger] near(self_ips@, a) by {
        if near(self_ips@, a) {
            let i = choose|i: int|
                0 <= i < self_ips@.len() && (#[trigger] self_ips@[i] matches IpAddr::V4(s)
                    && s.network() == a->V4_0.network());
            assert(self_ips@[i] is V4);
        }
        if in_own_network(a) {
            let i = choose|i: int|
                0 <= i < self_ips@.len() && (#[trigger] self_ips@[i]) is V4 && self_ips@[i]->V4_0.a
                    == a->V4_0.a && self_ips@[i]->V4_0.b == a->V4_0.b && self_ips@[i]->V4_0.c
                    == a->V4_0.c;
            assert(self_ips@[i]->V4_0.network() == a->V4_0.network());
        }
    }
    let x = reachable@[k];
    assert(preference(self_ips@, x) <= preference(self_ips@, reachable@[c]));
    if in_own_network(x) && (forall|j: int|
        0 <= j < k ==> !in_own_network(#[trigger] reachable@[j])) {
        assert(near(self_ips@, x));
        assert(preference(self_ips@, reachable@[c]) == 2);
        if c < k {
            assert(!in_own_network(reachable@[c]));
        }
        if k < c {
            assert(preference(self_ips@, reachable@[k]) < preference(self_ips@, reachable@[c]));
        }
    }
    if x is V4 && (forall|j: int|
        0 <= j < reachable@.len() ==> !in_own_network(#[trigger] reachable@[j])) && (forall|j: int|
        0 <= j < k ==> !(#[trigger] reachable@[j] is V4)) {
        assert(!in_own_network(reachable@[c]));
        assert(!in_own_network(x));
        assert(preference(self_ips@, x) == 1);
        if c < k {
            assert(!(reachable@[c] is V4));
        }
        if k < c {
            assert(preference(self_ips@, reachable@[k]) < preference(self_ips@, reachable@[c]));
        }
    }
    if (forall|j: int| 0 <= j < reachable@.len() ==> !(#[trigger] reachable@[j] is V4)) && k == 0 {
        assert(!(reachable@[c] is V4));
        if k < c {
            assert(preference(self_ips@, reachable@[k]) < preference(self_ips@, reachable@[c]));
        }
    }
}

/// A node announces its addresses that hold on more than one link, in their order; all of them when
/// there is no such one; and itself when it has none.
pub proof fn law_reachable_addresses_are_announced(ips: &Vec<IpAddr>, r: Vec<IpAddr>, ip: IpAddr)
    requires
        call_ensures(broadcast_addrs, (ips,), r),
    ensures
        r@.len() > 0,
        ips@.len() == 0 ==> r@ == seq![IpAddr::V4(Ipv4 { a: 127, b: 0, c: 0, d: 1 })],
        (exists|x: IpAddr| #[trigger] ips@.contains(x) && !x.link_local()) ==> (r@.contains(ip)
            <==> ips@.contains(ip) && !ip.link_local()),
        ips@.len() > 0 && (forall|x: IpAddr| #[trigger] ips@.contains(x) ==> x.link_local())
            ==> r@ == ips@,
{
    lemma_beyond_link(ips@);
    law_announced_addresses(ips@, ip);
    if ips@.len() > 0 && (forall|x: IpAddr| #[trigger] ips@.contains(x) ==> x.link_local()) {
        if beyond_link(ips@).len() > 0 {
            assert(beyond_link(ips@).contains(beyond_link(ips@)[0]));
        }
    }
    if exists|x: IpAddr| #[trigger] ips@.contains(x) && !x.link_local() {
        let x = choose|x: IpAddr| #[trigger] ips@.contains(x) && !x.link_local();
        assert(beyond_link(ips@).contains(x));
        assert(beyond_link(ips@).len() > 0);
    }
}

/// A service that was resolved is found, at the port and with the words that it said last, and at an
/// address that it said and that can be reached; a service that is gone is not found.
pub proof fn law_resolved_service_is_found(
    b: &mut Browse,
    fullname: String,
    port: u16,
    txt: Vec<(String, String)>,
    addrs: Vec<IpAddr>,
    all: Browse,
    self_ips: &Vec<IpAddr>,
    r: Vec<Discovered>,
) -> (i: int)
    requires
        !old(b)@.dom().contains(fullname@),
        call_ensures(Browse::on_event, (b, BrowseEvent::Resolved { fullname, port, txt, addrs }), ()),
        all == *final(b),
        call_ensures(Browse::finish, (all, self_ips), r),
        exists|x: IpAddr| #[trigger] addrs@.contains(x) && !x.link_local() && !x.is_none(),
    ensures
        0 <= i < r@.len(),
        r@[i].instance@ == fullname@,
        r@[i].port == port,
        r@[i].txt@ == txt@,
        addrs@.contains(r@[i].ip),
        !r@[i].ip.link_local(),
{
    lemma_merged_addrs(Seq::empty(), addrs@);
    let known = merged_addrs(Seq::empty(), addrs@);
    let x = choose|x: IpAddr| #[trigger] addrs@.contains(x) && !x.link_local() && !x.is_none();
    assert(known.contains(x));
    assert(all@.dom().contains(fullname@));
    assert(all@[fullname@].addrs == known);
    let i = choose|i: int| 0 <= i < r@.len() && (#[trigger] r@[i]).instance@ == fullname@;
    let d = r@[i];
    let k = choose|k: int| #[trigger]
        is_chosen(self_ips@, all@[d.instance@].addrs, k) && d.ip == all@[d.instance@].addrs[k];
    assert(known.contains(d.ip));
    i
}

/// A service that is gone is not found any more.
pub proof fn law_gone_service_is_not_found(
    b: &mut Browse,
    fullname: String,
    all: Browse,
    self_ips: &Vec<IpAddr>,
    r: Vec<Discovered>,
    i: int,
)
    requires
        call_ensures(Browse::on_event, (b, BrowseEvent::Removed(fullname)), ()),
        all == *final(b),
        call_ensures(Browse::finish, (all, self_ips), r),
        0 <= i < r@.len(),
    ensures
        r@[i].instance@ != fullname@,
        old(b)@.dom().contains(r@[i].instance@),
{
    assert(all@.dom().contains(r@[i].instance@));
}

/// What is announced is the service at this node: under its instance, host name, addresses and port.
/// It is announced anew in the same words until it is stopped, and taken back once.
pub proof fn law_announcement_lasts_until_it_is_stopped(
    instance: &str,
    ips: &Vec<IpAddr>,
    port: u16,
    hostname: &str,
    started: (Discovery, ServiceRecord),
    addrs: Vec<IpAddr>,
    anew: Option<ServiceRecord>,
    d: &mut Discovery,
    name: Option<String>,
    after: Option<ServiceRecord>,
    again: &mut Discovery,
    none: Option<String>,
)
    requires
        call_ensures(Discovery::start, (instance, ips, port, hostname), started),
        call_ensures(broadcast_addrs, (ips,), addrs),
        call_ensures(Discovery::redefine, (&started.0,), anew),
        *old(d) == started.0,
        call_ensures(Discovery::stop, (d,), name),
        call_ensures(Discovery::redefine, (&*final(d),), after),
        *old(again) == *final(d),
        call_ensures(Discovery::stop, (again,), none),
    ensures
        started.1.instance@ == instance@,
        started.1.fullname@ == instance@ + "._stross._tcp.local."@,
        started.1.host@ == hostname@ + ".local."@,
        started.1.port == port,
        started.1.addrs@ == addrs@,
        anew matches Some(x) && x.fullname@ == started.1.fullname@ && x.port == port && x.addrs@
            == addrs@ && x.host@ == started.1.host@,
        name matches Some(n) && n@ == started.1.fullname@,
        after is None,
        none is None,
{
    reveal_strlit(".");
    reveal_strlit("_stross._tcp.local.");
    reveal_strlit("._stross._tcp.local.");
    assert("."@ + "_stross._tcp.local."@ =~= "._stross._tcp.local."@);
    assert(started.1.fullname@ =~= instance@ + "._stross._tcp.local."@);
}

/// A service that is resolved again keeps the addresses that were known of it, and gets the new ones
/// that can be reached, each once; its port and its text are the new ones.
pub proof fn law_service_resolved_again_keeps_its_addresses(
    b: &mut Browse,
    fullname: String,
    port: u16,
    txt: Vec<(String, String)>,
    addrs: Vec<IpAddr>,
    ip: IpAddr,
)
    requires
        old(b)@.dom().contains(fullname@),
        old(b)@[fullname@].addrs.no_duplicates(),
        call_ensures(Browse::on_event, (b, BrowseEvent::Resolved { fullname, port, txt, addrs }), ()),
    ensures
        ({
            let e = final(b)@[fullname@];
            &&& final(b)@.dom().contains(fullname@)
            &&& e.port == port
            &&& e.txt == txt@
            &&& e.addrs.no_duplicates()
            &&& e.addrs.contains(ip) <==> old(b)@[fullname@].addrs.contains(ip) || addrs@.contains(
                ip,
            ) && !ip.link_local() && !ip.is_none()
        }),
{
    lemma_merged_addrs(old(b)@[fullname@].addrs, addrs@);
}

} // verus!
