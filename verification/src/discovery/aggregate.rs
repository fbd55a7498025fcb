//! The devices of the local network: what was found, what they answer, and how they are listed.

use vstd::prelude::*;

use crate::discovery::addr::{IpAddr, Ipv4};
use crate::discovery::info::{DiscoveryInfo, DiscoveryResp, RoleId};
use crate::kernel::endpoint::manifest::{EndpointSummary, SummaryModel};
use crate::message::{texts, MediaKind, TransportId};
use crate::order::{
    lemma_reached, lemma_text_le_total, lemma_text_le_transitive, sort_stable, stably_sorted, text_le, text_leq,
    Ranked,
};
use crate::text::{
    begins_with, chars_of, dec, decimal, find_first, first_place, join3, lemma_first_place_is,
    lemma_parse_dec, lemma_parse_number, parse_number,
    parsed_number, same, skip_chars, starts_with, string_of,
};

verus! {

/// The port at which nodes answer who they are.
pub const DISCOVERY_PORT: u16 = 18779;

/// How many hosts are asked at the same time.
pub const SCAN_CONCURRENCY: usize = 64;

/// A stream that a relay offers.
#[derive(Debug)]
pub struct StreamInfo {
    pub stream_id: String,
    pub title: String,
    /// What the pictures are, if there are any.
    pub video: Option<String>,
    /// What the sound is, if there is any.
    pub audio: Option<String>,
    /// Unix time in seconds.
    pub started_at: u64,
    pub watchers: u32,
}

/// A stream as it is shown.
#[derive(Debug)]
pub struct StreamView {
    pub stream_id: String,
    pub title: String,
    pub video: bool,
    pub audio: bool,
    pub watchers: u32,
}

/// A shown stream, as a mathematical value.
pub struct ViewModel {
    pub stream_id: Seq<char>,
    pub title: Seq<char>,
    pub video: bool,
    pub audio: bool,
    pub watchers: u32,
}

impl View for StreamView {
    type V = ViewModel;

    open spec fn view(&self) -> ViewModel {
        ViewModel {
            stream_id: self.stream_id@,
            title: self.title@,
            video: self.video,
            audio: self.audio,
            watchers: self.watchers,
        }
    }
}

/// What is shown of a stream.
pub open spec fn shown(s: StreamInfo) -> ViewModel {
    ViewModel {
        stream_id: s.stream_id@,
        title: s.title@,
        video: s.video is Some,
        audio: s.audio is Some,
        watchers: s.watchers,
    }
}

/// What is shown of a list of streams.
pub open spec fn all_shown(v: Seq<StreamInfo>) -> Seq<ViewModel> {
    v.map_values(|s: StreamInfo| shown(s))
}

/// The models of shown streams.
pub open spec fn view_models(v: Seq<StreamView>) -> Seq<ViewModel> {
    v.map_values(|s: StreamView| s@)
}

/// What is shown of a list of streams.
pub fn to_views(list: &Vec<StreamInfo>) -> (r: Vec<StreamView>)
    ensures
        view_models(r@) == all_shown(list@),
{
    let mut r: Vec<StreamView> = Vec::new();
    let mut i: usize = 0;
    while i < list.len()
        invariant
            i <= list@.len(),
            r@.len() == i,
            forall|j: int| 0 <= j < i ==> (#[trigger] r@[j])@ == shown(list@[j]),
        decreases list.len() - i,
    {
        let s = &list[i];
        r.push(
            StreamView {
                stream_id: s.stream_id.clone(),
                title: s.title.clone(),
                video: s.video.is_some(),
                audio: s.audio.is_some(),
                watchers: s.watchers,
            },
        );
        i += 1;
    }
    assert(view_models(r@) =~= all_shown(list@));
    r
}

/// A device of the network.
#[derive(Debug)]
pub struct ScannedDevice {
    pub name: String,
    pub ip: String,
    pub port: u16,
    /// Whether it is this device.
    pub is_self: bool,
    pub roles: Vec<RoleId>,
    pub media: Vec<MediaKind>,
    pub transports: Vec<TransportId>,
    pub endpoints: Vec<EndpointSummary>,
    /// Whether its relay answered.
    pub online: bool,
    pub srt_port: Option<u16>,
    pub quic_port: Option<u16>,
    pub streams: Vec<StreamView>,
}

/// A device, as a mathematical value.
#[verifier::ext_equal]
pub struct DeviceModel {
    pub name: Seq<char>,
    pub ip: Seq<char>,
    pub port: u16,
    pub is_self: bool,
    pub roles: Seq<RoleId>,
    pub media: Seq<MediaKind>,
    pub transports: Seq<TransportId>,
    pub endpoints: Seq<SummaryModel>,
    pub online: bool,
    pub srt_port: Option<u16>,
    pub quic_port: Option<u16>,
    pub streams: Seq<ViewModel>,
}

/// The models of a list of summaries.
pub open spec fn summary_models(v: Seq<EndpointSummary>) -> Seq<SummaryModel> {
    v.map_values(|s: EndpointSummary| s@)
}

impl View for ScannedDevice {
    type V = DeviceModel;

    open spec fn view(&self) -> DeviceModel {
        DeviceModel {
            name: self.name@,
            ip: self.ip@,
            port: self.port,
            is_self: self.is_self,
            roles: self.roles@,
            media: self.media@,
            transports: self.transports@,
            endpoints: summary_models(self.endpoints@),
            online: self.online,
            srt_port: self.srt_port,
            quic_port: self.quic_port,
            streams: view_models(self.streams@),
        }
    }
}

/// A device of which nothing is known but where it is.
pub open spec fn bare_device(name: Seq<char>, ip: Seq<char>, port: u16, is_self: bool) -> DeviceModel {
    DeviceModel {
        name,
        ip,
        port,
        is_self,
        roles: Seq::empty(),
        media: Seq::empty(),
        transports: Seq::empty(),
        endpoints: Seq::empty(),
        online: false,
        srt_port: None,
        quic_port: None,
        streams: Seq::empty(),
    }
}

fn new_device(name: String, ip: String, port: u16, is_self: bool) -> (r: ScannedDevice)
    ensures
        r@ == bare_device(name@, ip@, port, is_self),
{
    let r = ScannedDevice {
        name,
        ip,
        port,
        is_self,
        roles: Vec::new(),
        media: Vec::new(),
        transports: Vec::new(),
        endpoints: Vec::new(),
        online: false,
        srt_port: None,
        quic_port: None,
        streams: Vec::new(),
    };
    assert(r@ =~= bare_device(name@, ip@, port, is_self));
    r
}

/// A service that was found, with what it says about itself.
#[derive(Debug)]
pub struct Found {
    pub instance: String,
    pub ip: IpAddr,
    /// The address as text.
    pub ip_text: String,
    pub port: u16,
    /// What the service says about itself, if that can be understood.
    pub info: Option<DiscoveryInfo>,
}

impl Found {
    /// The text is that of the address: an IPv4 address has one text, an IPv6 address has colons.
    pub open spec fn wf(self) -> bool {
        match self.ip {
            IpAddr::V4(a) => self.ip_text@ == a.text(),
            IpAddr::V6(_) => self.ip_text@.contains(':'),
        }
    }
}

/// The device behind a service that was found, at the address that was settled for it. It is this
/// device when that address is one of this device.
pub open spec fn device_of(f: Found, ip: Seq<char>, self_ips: Seq<Seq<char>>) -> DeviceModel {
    let bare = bare_device(f.instance@, ip, f.port, self_ips.contains(ip));
    match f.info {
        None => bare,
        Some(i) => DeviceModel {
            name: i.name@,
            roles: i.roles@,
            media: i.media@,
            transports: i.transports@,
            endpoints: summary_models(i.endpoints@),
            ..bare
        },
    }
}

/// The address at which a device is asked: this device asks itself at its loopback address.
pub open spec fn asked_at(d: DeviceModel) -> Seq<char> {
    if d.is_self {
        "127.0.0.1"@
    } else {
        d.ip
    }
}

/// The address that a service has after the first `n` finds, when the first of them with its name
/// was at `k`: an IPv4 address replaces one of the other kind.
pub open spec fn settled_ip(found: Seq<Found>, k: int, n: int) -> Seq<char>
    decreases n - k,
{
    if n <= k + 1 {
        found[k].ip_text@
    } else {
        let before = settled_ip(found, k, n - 1);
        let f = found[n - 1];
        if f.instance@ == found[k].instance@ && before.contains(':') && f.ip is V4 {
            f.ip_text@
        } else {
            before
        }
    }
}

/// Whether the `k`-th find is the first one of its name.
pub open spec fn is_first(found: Seq<Found>, k: int) -> bool {
    forall|j: int| 0 <= j < k ==> (#[trigger] found[j]).instance@ != found[k].instance@
}

/// The places of the first finds of each name, among the first `n`.
pub open spec fn first_finds(found: Seq<Found>, n: int) -> Seq<int>
    decreases n,
{
    if n <= 0 {
        Seq::empty()
    } else if is_first(found, n - 1) {
        first_finds(found, n - 1).push(n - 1)
    } else {
        first_finds(found, n - 1)
    }
}

/// A device that is to be asked.
pub struct Candidate {
    pub device: ScannedDevice,
    /// The address at which it is asked.
    pub probe_ip: String,
}

/// Whether `r` holds a candidate for each name that was found, in the order in which they were found
/// first, at the address that was settled for it.
pub open spec fn merged(found: Seq<Found>, self_ips: Seq<Seq<char>>, r: Seq<Candidate>) -> bool {
    let firsts = first_finds(found, found.len() as int);
    &&& r.len() == firsts.len()
    &&& forall|i: int|
        0 <= i < r.len() ==> {
            let k = firsts[i];
            let d = device_of(found[k], settled_ip(found, k, found.len() as int), self_ips);
            (#[trigger] r[i]).device@ == d && r[i].probe_ip@ == asked_at(d)
        }
}

fn has_text(v: &Vec<String>, t: &str) -> (r: bool)
    ensures
        r == texts(v@).contains(t@),
{
    let mut i: usize = 0;
    while i < v.len()
        invariant
            i <= v@.len(),
            forall|j: int| 0 <= j < i ==> (#[trigger] v@[j])@ != t@,
        decreases v.len() - i,
    {
        if same(v[i].as_str(), t) {
            assert(texts(v@)[i as int] == t@);
            return true;
        }
        i += 1;
    }
    proof {
        if texts(v@).contains(t@) {
            let j = choose|j: int| 0 <= j < texts(v@).len() && texts(v@)[j] == t@;
            assert(v@[j]@ == t@);
        }
    }
    false
}

fn probe_address(is_self: bool, ip: &str) -> (r: String)
    ensures
        r@ == (if is_self {
            "127.0.0.1"@
        } else {
            ip@
        }),
{
    if is_self {
        "127.0.0.1".to_owned()
    } else {
        ip.to_owned()
    }
}

fn has_colon(t: &str) -> (r: bool)
    ensures
        r == t@.contains(':'),
{
    let v = chars_of(t);
    let k: usize = find_first(&v, ':');
    proof {
        crate::text::lemma_first_place(v@, ':');
        if k < v.len() {
            assert(t@[k as int] == ':');
        }
    }
    k < v.len()
}

fn find_name(names: &Vec<String>, name: &str) -> (r: Option<usize>)
    ensures
        match r {
            Some(i) => i < names@.len() && names@[i as int]@ == name@ && forall|j: int|
                0 <= j < i ==> (#[trigger] names@[j])@ != name@,
            None => forall|j: int| 0 <= j < names@.len() ==> (#[trigger] names@[j])@ != name@,
        },
{
    let mut i: usize = 0;
    while i < names.len()
        invariant
            i <= names@.len(),
            forall|j: int| 0 <= j < i ==> (#[trigger] names@[j])@ != name@,
        decreases names.len() - i,
    {
        if same(names[i].as_str(), name) {
            return Some(i);
        }
        i += 1;
    }
    None
}

proof fn lemma_first_finds(found: Seq<Found>, n: int)
    requires
        0 <= n <= found.len(),
    ensures
        forall|i: int|
            0 <= i < first_finds(found, n).len() ==> 0 <= #[trigger] first_finds(found, n)[i] < n
                && is_first(found, first_finds(found, n)[i]),
        forall|k: int|
            0 <= k < n && #[trigger] is_first(found, k) ==> first_finds(found, n).contains(k),
        forall|i: int, j: int|
            #![trigger first_finds(found, n)[i], first_finds(found, n)[j]]
            0 <= i < j < first_finds(found, n).len() ==> first_finds(found, n)[i] < first_finds(
                found,
                n,
            )[j],
    decreases n,
{
    if n > 0 {
        lemma_first_finds(found, n - 1);
        let p = first_finds(found, n - 1);
        assert forall|k: int|
            0 <= k < n && #[trigger] is_first(found, k) implies first_finds(found, n).contains(k) by {
            if k < n - 1 {
                let i = choose|i: int| 0 <= i < p.len() && p[i] == k;
                assert(first_finds(found, n)[i] == k);
            } else {
                assert(first_finds(found, n)[p.len() as int] == k);
            }
        }
    }
}

/// Every name that was found has a first find.
proof fn lemma_has_first(found: Seq<Found>, k: int) -> (f: int)
    requires
        0 <= k < found.len(),
    ensures
        0 <= f <= k,
        is_first(found, f),
        found[f].instance@ == found[k].instance@,
    decreases k,
{
    if is_first(found, k) {
        k
    } else {
        let j = choose|j: int|
            0 <= j < k && (#[trigger] found[j]).instance@ == found[k].instance@;
        lemma_has_first(found, j)
    }
}

/// Makes one device of all finds with the same name.
pub fn merge_found(found: Vec<Found>, self_ips: &Vec<String>) -> (r: Vec<Candidate>)
    ensures
        merged(found@, texts(self_ips@), r@),
{
    let ghost all = found@;
    let mut rest = found;
    let total: usize = rest.len();
    let mut names: Vec<String> = Vec::new();
    let mut r: Vec<Candidate> = Vec::new();
    let mut n: usize = 0;
    assert(all.skip(0) =~= all);
    while n < total
        invariant
            total == all.len(),
            n <= total,
            rest@ == all.skip(n as int),
            names@.len() == r@.len(),
            r@.len() == first_finds(all, n as int).len(),
            forall|i: int|
                0 <= i < r@.len() ==> {
                    let k = first_finds(all, n as int)[i];
                    let d = device_of(all[k], settled_ip(all, k, n as int), texts(self_ips@));
                    (#[trigger] r@[i]).device@ == d && r@[i].probe_ip@ == asked_at(d)
                },
            forall|i: int|
                0 <= i < names@.len() ==> (#[trigger] names@[i])@ == all[first_finds(
                    all,
                    n as int,
                )[i]].instance@,
        decreases total - n,
    {
        let f: Found = rest.remove(0);
        let ghost at = n as int;
        let ghost firsts = first_finds(all, at);
        proof {
            assert(f == all[at]);
            assert(rest@ =~= all.skip(at + 1));
            lemma_first_finds(all, at);
        }
        let ghost before = r@;
        match find_name(&names, f.instance.as_str()) {
            Some(i) => {
                let ghost k = firsts[i as int];
                assert(all[k].instance@ == f.instance@);
                assert(!is_first(all, at)) by {
                    assert(all[k].instance@ == all[at].instance@);
                }
                let replace: bool = match f.ip {
                    IpAddr::V4(_) => has_colon(r[i].device.ip.as_str()),
                    IpAddr::V6(_) => false,
                };
                if replace {
                    let mut c: Candidate = r.remove(i);
                    let is_self: bool = has_text(self_ips, f.ip_text.as_str());
                    c.probe_ip = probe_address(is_self, f.ip_text.as_str());
                    c.device.ip = f.ip_text;
                    c.device.is_self = is_self;
                    assert(c.device@ =~= device_of(all[k], f.ip_text@, texts(self_ips@)));
                    r.insert(i, c);
                }
                proof {
                    assert forall|j: int| 0 <= j < r@.len() implies {
                        let k = first_finds(all, at + 1)[j];
                        let d = device_of(all[k], settled_ip(all, k, at + 1), texts(self_ips@));
                        (#[trigger] r@[j]).device@ == d && r@[j].probe_ip@ == asked_at(d)
                    } by {
                        let kj = firsts[j];
                        if j != i {
                            assert(r@[j] == before[j]);
                            if all[kj].instance@ == f.instance@ {
                                if j < i {
                                    assert(names@[j]@ == f.instance@);
                                } else {
                                    assert(is_first(all, kj));
                                    assert(firsts[i as int] < firsts[j]);
                                    assert(all[k].instance@ != all[kj].instance@);
                                }
                            }
                        }
                    }
                }
            },
            None => {
                proof {
                    assert(is_first(all, at)) by {
                        assert forall|j: int| 0 <= j < at implies (#[trigger] all[j]).instance@
                            != all[at].instance@ by {
                            if all[j].instance@ == all[at].instance@ {
                                let g = lemma_has_first(all, j);
                                assert(firsts.contains(g));
                                let x = choose|x: int| 0 <= x < firsts.len() && firsts[x] == g;
                                assert(names@[x]@ == f.instance@);
                            }
                        }
                    }
                }
                let is_self: bool = has_text(self_ips, f.ip_text.as_str());
                let probe_ip: String = probe_address(is_self, f.ip_text.as_str());
                names.push(f.instance.clone());
                let mut device = new_device(f.instance, f.ip_text, f.port, is_self);
                match f.info {
                    Some(info) => {
                        device.name = info.name;
                        device.roles = info.roles;
                        device.media = info.media;
                        device.transports = info.transports;
                        device.endpoints = info.endpoints;
                    },
                    None => {},
                }
                assert(device@ =~= device_of(all[at], all[at].ip_text@, texts(self_ips@)));
                r.push(Candidate { device, probe_ip });
                proof {
                    assert forall|j: int| 0 <= j < r@.len() implies {
                        let k = first_finds(all, at + 1)[j];
                        let d = device_of(all[k], settled_ip(all, k, at + 1), texts(self_ips@));
                        (#[trigger] r@[j]).device@ == d && r@[j].probe_ip@ == asked_at(d)
                    } by {
                        if j < before.len() {
                            assert(r@[j] == before[j]);
                            let kj = firsts[j];
                            assert(all[kj].instance@ != f.instance@);
                        } else {
                            assert(settled_ip(all, at, at + 1) == all[at].ip_text@);
                        }
                    }
                }
            },
        }
        n += 1;
    }
    r
}

/// The ports that a relay answers with.
#[derive(Debug, Clone, Copy, PartialEq, Eq, Structural)]
pub struct RelayPortsInfo {
    pub srt_port: Option<u16>,
    pub quic_port: Option<u16>,
}

/// A device after its relay was asked for its ports and its streams; what it did not answer stays as
/// it was.
pub open spec fn asked(
    d: DeviceModel,
    ports: Option<RelayPortsInfo>,
    streams: Option<Vec<StreamInfo>>,
) -> DeviceModel {
    DeviceModel {
        online: d.online || ports is Some,
        srt_port: match ports {
            Some(p) => p.srt_port,
            None => d.srt_port,
        },
        quic_port: match ports {
            Some(p) => p.quic_port,
            None => d.quic_port,
        },
        streams: match streams {
            Some(v) => all_shown(v@),
            None => d.streams,
        },
        ..d
    }
}

/// Takes in what a relay answered.
pub fn note_answers(
    device: &mut ScannedDevice,
    ports: Option<RelayPortsInfo>,
    streams: Option<Vec<StreamInfo>>,
)
    ensures
        final(device)@ == asked(old(device)@, ports, streams),
{
    match ports {
        Some(p) => {
            device.online = true;
            device.srt_port = p.srt_port;
            device.quic_port = p.quic_port;
        },
        None => {},
    }
    match streams {
        Some(v) => {
            device.streams = to_views(&v);
        },
        None => {},
    }
    assert(device@ =~= asked(old(device)@, ports, streams));
}

impl Ranked for ScannedDevice {
    open spec fn le(&self, other: &Self) -> bool {
        if self.is_self == other.is_self {
            text_le(self.name@, other.name@)
        } else {
            self.is_self
        }
    }

    proof fn total(a: &Self, b: &Self) {
        lemma_text_le_total(a.name@, b.name@);
    }

    proof fn transitive(a: &Self, b: &Self, c: &Self) {
        if a.is_self == b.is_self && b.is_self == c.is_self {
            lemma_text_le_transitive(a.name@, b.name@, c.name@);
        }
    }

    fn leq(&self, other: &Self) -> (r: bool) {
        if self.is_self == other.is_self {
            text_leq(self.name.as_str(), other.name.as_str())
        } else {
            self.is_self
        }
    }
}

/// Lists devices: this one first, the others by name.
pub fn sort_devices(devices: Vec<ScannedDevice>) -> (r: Vec<ScannedDevice>)
    ensures
        exists|order: Seq<int>| #[trigger] stably_sorted(devices@, r@, order),
{
    sort_stable(devices)
}

/// What a device answered when it was asked.
pub struct Answers {
    pub ports: Option<RelayPortsInfo>,
    pub streams: Option<Vec<StreamInfo>>,
}

/// Whether `devices` are the candidates after they were asked.
pub open spec fn all_asked(
    candidates: Seq<Candidate>,
    answers: Seq<Answers>,
    devices: Seq<ScannedDevice>,
) -> bool {
    &&& devices.len() == candidates.len()
    &&& forall|i: int|
        0 <= i < devices.len() ==> (#[trigger] devices[i])@ == asked(
            candidates[i].device@,
            answers[i].ports,
            answers[i].streams,
        )
}

/// Ends a scan once all candidates were asked: takes in the answers and lists the devices.
pub fn finish_scan(candidates: Vec<Candidate>, answers: Vec<Answers>) -> (r: Vec<ScannedDevice>)
    requires
        candidates@.len() == answers@.len(),
    ensures
        exists|devices: Seq<ScannedDevice>, order: Seq<int>|
            all_asked(candidates@, answers@, devices) && #[trigger] stably_sorted(
                devices,
                r@,
                order,
            ),
{
    let ghost cs = candidates@;
    let ghost ans = answers@;
    let mut left = candidates;
    let mut told = answers;
    let total: usize = left.len();
    let mut devices: Vec<ScannedDevice> = Vec::new();
    let mut n: usize = 0;
    assert(cs.skip(0) =~= cs && ans.skip(0) =~= ans);
    while n < total
        invariant
            total == cs.len(),
            total == ans.len(),
            n <= total,
            left@ == cs.skip(n as int),
            told@ == ans.skip(n as int),
            devices@.len() == n,
            forall|i: int|
                0 <= i < n ==> (#[trigger] devices@[i])@ == asked(
                    cs[i].device@,
                    ans[i].ports,
                    ans[i].streams,
                ),
        decreases total - n,
    {
        let c = left.remove(0);
        let a = told.remove(0);
        assert(left@ =~= cs.skip(n as int + 1));
        assert(told@ =~= ans.skip(n as int + 1));
        let mut d = c.device;
        note_answers(&mut d, a.ports, a.streams);
        devices.push(d);
        n += 1;
    }
    let ghost asked_devices = devices@;
    let r = sort_devices(devices);
    proof {
        let order = choose|order: Seq<int>| #[trigger] stably_sorted(asked_devices, r@, order);
        assert(all_asked(cs, ans, asked_devices));
        assert(stably_sorted(asked_devices, r@, order));
    }
    r
}

/// How long a device is waited for: at least a tenth of a second.
pub fn scan_probe_ms(probe_ms: u64) -> (r: u64)
    ensures
        r == (if probe_ms < 100 {
            100
        } else {
            probe_ms
        }),
{
    if probe_ms < 100 {
        100
    } else {
        probe_ms
    }
}

/// How long each host is waited for when all are asked: at most three tenths of a second.
pub fn host_probe_ms(probe_ms: u64) -> (r: u64)
    ensures
        r == (if probe_ms > 300 {
            300
        } else {
            probe_ms
        }),
{
    if probe_ms > 300 {
        300
    } else {
        probe_ms
    }
}

/// Whether no other device was found, so that all hosts are to be asked one by one.
pub fn needs_host_scan(devices: &Vec<ScannedDevice>) -> (r: bool)
    ensures
        r == forall|i: int| 0 <= i < devices@.len() ==> (#[trigger] devices@[i]).is_self,
{
    let mut i: usize = 0;
    while i < devices.len()
        invariant
            i <= devices@.len(),
            forall|j: int| 0 <= j < i ==> (#[trigger] devices@[j]).is_self,
        decreases devices.len() - i,
    {
        if !devices[i].is_self {
            assert(!devices@[i as int].is_self);
            return false;
        }
        i += 1;
    }
    true
}

/// Whether an address is that of a local network whose hosts are asked.
pub open spec fn scannable(ip: IpAddr) -> bool {
    ip matches IpAddr::V4(x) && !x.is_loop() && !x.made_up() && !x.link_local()
}

/// Whether one address comes before another.
pub open spec fn addr_lt(x: Ipv4, y: Ipv4) -> bool {
    x.a < y.a || (x.a == y.a && (x.b < y.b || (x.b == y.b && (x.c < y.c || (x.c == y.c && x.d
        < y.d)))))
}

fn addr_less(x: Ipv4, y: Ipv4) -> (r: bool)
    ensures
        r == addr_lt(x, y),
{
    x.a < y.a || (x.a == y.a && (x.b < y.b || (x.b == y.b && (x.c < y.c || (x.c == y.c && x.d
        < y.d)))))
}

/// Whether a list of addresses is in ascending order, each once.
pub open spec fn ascending(v: Seq<Ipv4>) -> bool {
    forall|i: int, j: int| #![trigger v[i], v[j]] 0 <= i < j < v.len() ==> addr_lt(v[i], v[j])
}

/// Whether a network is one that some address of a list belongs to and whose hosts are asked.
pub open spec fn own_network(ips: Seq<IpAddr>, net: Ipv4) -> bool {
    exists|i: int|
        0 <= i < ips.len() && scannable(#[trigger] ips[i]) && net == ips[i]->V4_0.network()
}

fn insert_addr(v: &mut Vec<Ipv4>, x: Ipv4)
    requires
        ascending(old(v)@),
    ensures
        ascending(final(v)@),
        forall|y: Ipv4| #[trigger]
            final(v)@.contains(y) <==> old(v)@.contains(y) || y == x,
{
    let ghost s = v@;
    let mut i: usize = 0;
    while i < v.len() && addr_less(v[i], x)
        invariant
            v@ == s,
            i <= s.len(),
            forall|j: int| 0 <= j < i ==> addr_lt(#[trigger] s[j], x),
        decreases v.len() - i,
    {
        i += 1;
    }
    if i < v.len() && v[i] == x {
        assert(s[i as int] == x);
        return;
    }
    v.insert(i, x);
    proof {
        let k = i as int;
        let t = v@;
        assert(t =~= s.insert(k, x));
        if k < s.len() {
            assert(addr_lt(x, s[k]));
        }
        assert forall|p: int, q: int| #![trigger t[p], t[q]] 0 <= p < q < t.len() implies addr_lt(
            t[p],
            t[q],
        ) by {
            let p0 = if p < k { p } else { p - 1 };
            let q0 = if q < k { q } else { q - 1 };
            if p != k && q != k {
                assert(t[p] == s[p0] && t[q] == s[q0]);
            } else if q == k {
                assert(t[p] == s[p]);
            } else {
                assert(t[q] == s[q0]);
                if q0 > k {
                    assert(addr_lt(s[k], s[q0]));
                }
            }
        }
        assert forall|y: Ipv4| #[trigger] t.contains(y) <==> s.contains(y) || y == x by {
            if t.contains(y) {
                let p = choose|p: int| 0 <= p < t.len() && t[p] == y;
                if p < k {
                    assert(s[p] == y);
                } else if p > k {
                    assert(s[p - 1] == y);
                }
            }
            if s.contains(y) {
                let p = choose|p: int| 0 <= p < s.len() && s[p] == y;
                if p < k {
                    assert(t[p] == y);
                } else {
                    assert(t[p + 1] == y);
                }
            }
            if y == x {
                assert(t[k] == y);
            }
        }
    }
}

/// The local networks of this device, in ascending order, each once. Addresses of the device itself,
/// those that hold on one link only, and those that a proxy made up belong to none.
pub fn scan_subnets(self_ips: &Vec<IpAddr>) -> (r: Vec<Ipv4>)
    ensures
        ascending(r@),
        forall|net: Ipv4| #[trigger] r@.contains(net) <==> own_network(self_ips@, net),
{
    let mut r: Vec<Ipv4> = Vec::new();
    let mut i: usize = 0;
    while i < self_ips.len()
        invariant
            i <= self_ips@.len(),
            ascending(r@),
            forall|net: Ipv4| #[trigger]
                r@.contains(net) <==> own_network(self_ips@.take(i as int), net),
        decreases self_ips.len() - i,
    {
        let ghost before = r@;
        let ghost seen = self_ips@.take(i as int);
        let ghost next = self_ips@.take(i as int + 1);
        match self_ips[i] {
            IpAddr::V4(x) => {
                if !(x.a == 127 || (x.a == 198 && (x.b == 18 || x.b == 19)) || (x.a == 169 && x.b
                    == 254)) {
                    insert_addr(&mut r, Ipv4::new(x.a, x.b, x.c, 0));
                    assert(next[i as int] == IpAddr::V4(x));
                    assert(scannable(next[i as int]));
                } else {
                    assert(!scannable(self_ips@[i as int]));
                }
            },
            IpAddr::V6(_) => {},
        }
        proof {
            assert forall|net: Ipv4| #[trigger] r@.contains(net) <==> own_network(next, net) by {
                if own_network(next, net) {
                    let j = choose|j: int|
                        0 <= j < next.len() && scannable(#[trigger] next[j]) && net
                            == next[j]->V4_0.network();
                    if j < i {
                        assert(seen[j] == next[j]);
                        assert(own_network(seen, net));
                    }
                }
                if own_network(seen, net) {
                    let j = choose|j: int|
                        0 <= j < seen.len() && scannable(#[trigger] seen[j]) && net
                            == seen[j]->V4_0.network();
                    assert(next[j] == seen[j]);
                }
            }
        }
        i += 1;
    }
    assert(self_ips@.take(self_ips@.len() as int) =~= self_ips@);
    r
}

/// The hosts that are asked: of each network those from 1 to 254, network by network.
pub open spec fn hosts_of(nets: Seq<Ipv4>) -> Seq<Ipv4> {
    Seq::new(
        nets.len() * 254,
        |i: int| Ipv4 { d: (i % 254 + 1) as u8, ..nets[i / 254] },
    )
}

/// The hosts of the local networks of this device.
pub fn scan_hosts(self_ips: &Vec<IpAddr>) -> (r: Vec<Ipv4>)
    ensures
        exists|nets: Seq<Ipv4>|
            {
                &&& #[trigger] ascending(nets)
                &&& forall|net: Ipv4| #[trigger]
                    nets.contains(net) <==> own_network(self_ips@, net)
                &&& r@ == hosts_of(nets)
            },
{
    let nets = scan_subnets(self_ips);
    let mut r: Vec<Ipv4> = Vec::new();
    let mut i: usize = 0;
    while i < nets.len()
        invariant
            i <= nets@.len(),
            r@.len() == i * 254,
            forall|j: int| 0 <= j < r@.len() ==> #[trigger] r@[j] == hosts_of(nets@)[j],
        decreases nets.len() - i,
    {
        let net: Ipv4 = nets[i];
        let mut h: u8 = 1;
        while h < 255
            invariant
                i < nets@.len(),
                net == nets@[i as int],
                1 <= h <= 255,
                r@.len() == i * 254 + h - 1,
                forall|j: int| 0 <= j < r@.len() ==> #[trigger] r@[j] == hosts_of(nets@)[j],
            decreases 255 - h,
        {
            let ghost at = r@.len() as int;
            r.push(Ipv4::new(net.a, net.b, net.c, h));
            proof {
                assert(at / 254 == i as int && at % 254 == h - 1) by (nonlinear_arith)
                    requires
                        at == i * 254 + h - 1,
                        1 <= h,
                        h <= 254,
                        i >= 0,
                ;
                assert(at < nets@.len() * 254) by (nonlinear_arith)
                    requires
                        at == i * 254 + h - 1,
                        h <= 254,
                        i + 1 <= nets@.len(),
                ;
                assert(hosts_of(nets@)[at] == Ipv4 { d: h, ..net });
            }
            h += 1;
        }
        i += 1;
    }
    assert(r@ =~= hosts_of(nets@));
    r
}

/// A device that answered who it is.
pub open spec fn answered_device(host: Seq<char>, is_self: bool, m: DiscoveryResp) -> DeviceModel {
    DeviceModel {
        name: m.name@,
        ip: host,
        port: m.relay_port,
        is_self,
        roles: m.roles@,
        media: m.media@,
        transports: m.transports@,
        endpoints: summary_models(m.endpoints@),
        online: false,
        srt_port: m.srt_port,
        quic_port: m.quic_port,
        streams: Seq::empty(),
    }
}

/// The device at a host that answered who it is. Its relay is the one that it names.
pub fn device_at(host: &str, self_ips: &Vec<String>, m: DiscoveryResp) -> (r: ScannedDevice)
    ensures
        r@ == answered_device(host@, texts(self_ips@).contains(host@), m),
{
    let r = ScannedDevice {
        name: m.name,
        ip: host.to_owned(),
        port: m.relay_port,
        is_self: has_text(self_ips, host),
        roles: m.roles,
        media: m.media,
        transports: m.transports,
        endpoints: m.endpoints,
        online: false,
        srt_port: m.srt_port,
        quic_port: m.quic_port,
        streams: Vec::new(),
    };
    assert(r@ =~= answered_device(host@, texts(self_ips@).contains(host@), m));
    r
}

/// The address at which a host answers who it is.
pub fn discovery_url(host: &str) -> (r: String)
    ensures
        r@ == "http://"@ + host@ + ":"@ + dec(DISCOVERY_PORT as nat) + "/api/discovery"@,
{
    let a: String = join3("http://", host, ":");
    join3(a.as_str(), decimal(DISCOVERY_PORT as u64).as_str(), "/api/discovery")
}

/// What an address that was typed in says behind `http://` or `https://`, up to the first slash.
pub open spec fn authority(base: Seq<char>) -> Option<Seq<char>> {
    let rest = if begins_with(base, "http://"@) {
        Some(base.skip(7))
    } else if begins_with(base, "https://"@) {
        Some(base.skip(8))
    } else {
        None
    };
    match rest {
        Some(s) => Some(s.take(first_place(s, '/'))),
        None => None,
    }
}

/// The place of the last colon in a text; minus one when there is none.
pub open spec fn last_colon(s: Seq<char>) -> int
    decreases s.len(),
{
    if s.len() == 0 {
        -1
    } else if s.last() == ':' {
        s.len() - 1
    } else {
        last_colon(s.drop_last())
    }
}

/// The host and the port of an address that was typed in: the port stands behind the last colon; it
/// is 80 when there is no colon. A port that is no number makes the address useless.
pub open spec fn host_and_port(authority: Seq<char>) -> Option<(Seq<char>, u16)> {
    let k = last_colon(authority);
    if k < 0 {
        Some((authority, 80))
    } else {
        match parsed_number(authority.skip(k + 1), u16::MAX as nat) {
            Some(p) => Some((authority.take(k), p as u16)),
            None => None,
        }
    }
}

/// The device at an address that was typed in.
pub open spec fn typed_device(base: Seq<char>) -> Option<DeviceModel> {
    match authority(base) {
        None => None,
        Some(a) => match host_and_port(a) {
            None => None,
            Some(hp) => Some(bare_device(a, hp.0, hp.1, false)),
        },
    }
}

fn find_last_colon(v: &Vec<char>) -> (r: Option<usize>)
    ensures
        match r {
            Some(k) => k < v@.len() && k == last_colon(v@),
            None => last_colon(v@) == -1,
        },
{
    let mut i: usize = v.len();
    assert(v@.take(v@.len() as int) =~= v@);
    while i > 0
        invariant
            i <= v@.len(),
            last_colon(v@) == last_colon(v@.take(i as int)),
        decreases i,
    {
        assert(v@.take(i as int).last() == v@[i - 1]);
        assert(v@.take(i as int).drop_last() =~= v@.take(i as int - 1));
        if v[i - 1] == ':' {
            return Some(i - 1);
        }
        i -= 1;
    }
    None
}

/// The device at an address that was typed in, such as `http://192.168.1.5:18777`; `None` when the
/// address is useless.
pub fn parse_base(base: &str) -> (r: Option<ScannedDevice>)
    ensures
        match r {
            Some(d) => typed_device(base@) == Some(d@),
            None => typed_device(base@) is None,
        },
{
    proof {
        reveal_strlit("http://");
        reveal_strlit("https://");
    }
    let rest: String = if starts_with(base, "http://") {
        skip_chars(base, 7)
    } else if starts_with(base, "https://") {
        skip_chars(base, 8)
    } else {
        return None;
    };
    let chars = chars_of(rest.as_str());
    let end: usize = find_first(&chars, '/');
    let host_port: String = string_of(&chars, 0, end);
    assert(host_port@ =~= rest@.take(end as int));
    let v = chars_of(host_port.as_str());
    match find_last_colon(&v) {
        None => Some(new_device(host_port.clone(), host_port, 80, false)),
        Some(k) => {
            let host: String = string_of(&v, 0, k);
            let port: String = string_of(&v, k + 1, v.len());
            assert(host@ =~= host_port@.take(k as int));
            assert(port@ =~= host_port@.skip(k as int + 1));
            match parse_number(port.as_str(), 65535) {
                None => None,
                Some(p) => Some(new_device(host_port, host, p as u16, false)),
            }
        },
    }
}

/// A text without the slashes at its end.
pub open spec fn without_slashes(s: Seq<char>) -> Seq<char>
    decreases s.len(),
{
    if s.len() > 0 && s.last() == '/' {
        without_slashes(s.drop_last())
    } else {
        s
    }
}

/// A text without the slashes at its end.
pub fn trim_slashes(s: &str) -> (r: String)
    ensures
        r@ == without_slashes(s@),
{
    let v = chars_of(s);
    let mut n: usize = v.len();
    assert(v@.take(v@.len() as int) =~= v@);
    while n > 0 && v[n - 1] == '/'
        invariant
            n <= v@.len(),
            without_slashes(v@) == without_slashes(v@.take(n as int)),
        decreases n,
    {
        assert(v@.take(n as int).last() == v@[n - 1]);
        assert(v@.take(n as int).drop_last() =~= v@.take(n as int - 1));
        n -= 1;
    }
    proof {
        if n > 0 {
            assert(v@.take(n as int).last() == v@[n - 1]);
        }
    }
    let r: String = string_of(&v, 0, n);
    assert(r@ =~= v@.take(n as int));
    r
}

/// Whether a list has a device at the given address and port.
pub open spec fn has_place(v: Seq<DeviceModel>, ip: Seq<char>, port: u16) -> bool {
    exists|i: int| 0 <= i < v.len() && (#[trigger] v[i]).ip == ip && v[i].port == port
}

/// The models of a list of devices.
pub open spec fn device_models(v: Seq<ScannedDevice>) -> Seq<DeviceModel> {
    v.map_values(|d: ScannedDevice| d@)
}

/// A list of devices after those that were typed in are added behind, unless there is one at the same
/// place already.
pub open spec fn with_typed(v: Seq<DeviceModel>, more: Seq<DeviceModel>) -> Seq<DeviceModel>
    decreases more.len(),
{
    if more.len() == 0 {
        v
    } else {
        let before = with_typed(v, more.drop_last());
        let d = more.last();
        if has_place(before, d.ip, d.port) {
            before
        } else {
            before.push(d)
        }
    }
}

fn is_placed(v: &Vec<ScannedDevice>, ip: &str, port: u16) -> (r: bool)
    ensures
        r == has_place(device_models(v@), ip@, port),
{
    let mut i: usize = 0;
    while i < v.len()
        invariant
            i <= v@.len(),
            forall|j: int| 0 <= j < i ==> !((#[trigger] v@[j]).ip@ == ip@ && v@[j].port == port),
        decreases v.len() - i,
    {
        if same(v[i].ip.as_str(), ip) && v[i].port == port {
            assert(device_models(v@)[i as int] == v@[i as int]@);
            return true;
        }
        i += 1;
    }
    proof {
        let m = device_models(v@);
        if has_place(m, ip@, port) {
            let j = choose|j: int| 0 <= j < m.len() && (#[trigger] m[j]).ip == ip@ && m[j].port == port;
            assert(m[j] == v@[j]@);
        }
    }
    false
}

/// Adds the devices that were typed in.
pub fn add_typed(devices: Vec<ScannedDevice>, typed: Vec<ScannedDevice>) -> (r: Vec<ScannedDevice>)
    ensures
        device_models(r@) == with_typed(device_models(devices@), device_models(typed@)),
{
    let ghost base = device_models(devices@);
    let ghost all = device_models(typed@);
    let mut r = devices;
    let mut rest = typed;
    let total: usize = rest.len();
    let mut n: usize = 0;
    assert(typed@.skip(0) =~= typed@);
    assert(all.take(0) =~= Seq::<DeviceModel>::empty());
    while n < total
        invariant
            total == typed@.len(),
            n <= total,
            all == device_models(typed@),
            rest@ == typed@.skip(n as int),
            device_models(r@) == with_typed(base, all.take(n as int)),
        decreases total - n,
    {
        let d: ScannedDevice = rest.remove(0);
        let ghost m = d@;
        let ghost before = r@;
        proof {
            assert(rest@ =~= typed@.skip(n as int + 1));
            let next = all.take(n as int + 1);
            assert(next.drop_last() =~= all.take(n as int));
            assert(next.last() == m);
        }
        if !is_placed(&r, d.ip.as_str(), d.port) {
            r.push(d);
            assert(device_models(r@) =~= device_models(before).push(m));
        }
        n += 1;
    }
    assert(all.take(all.len() as int) =~= all);
    r
}

proof fn lemma_v4_text(a: Ipv4)
    ensures
        !a.text().contains(':'),
{
    reveal_strlit(".");
    lemma_parse_dec(a.a as nat, a.a as nat);
    lemma_parse_dec(a.b as nat, a.b as nat);
    lemma_parse_dec(a.c as nat, a.c as nat);
    lemma_parse_dec(a.d as nat, a.d as nat);
    let (w, x, y, z) = (dec(a.a as nat), dec(a.b as nat), dec(a.c as nat), dec(a.d as nat));
    assert forall|i: int| 0 <= i < a.text().len() implies a.text()[i] != ':' by {
        let (p, q, r) = (w.len(), w.len() + 1 + x.len(), w.len() + 2 + x.len() + y.len());
        if i < p {
            assert(a.text()[i] == w[i]);
        } else if i == p {
        } else if i < q {
            assert(a.text()[i] == x[i - p - 1]);
        } else if i == q {
        } else if i < r {
            assert(a.text()[i] == y[i - q - 1]);
        } else if i == r {
        } else {
            assert(a.text()[i] == z[i - r - 1]);
        }
    }
}

proof fn lemma_settled(found: Seq<Found>, k: int, n: int)
    requires
        0 <= k < n <= found.len(),
        forall|j: int| 0 <= j < found.len() ==> (#[trigger] found[j]).wf(),
    ensures
        exists|j: int|
            k <= j < n && (#[trigger] found[j]).instance@ == found[k].instance@ && settled_ip(
                found,
                k,
                n,
            ) == found[j].ip_text@,
        (exists|j: int|
            k <= j < n && (#[trigger] found[j]).instance@ == found[k].instance@ && found[j].ip is V4)
            <==> !settled_ip(found, k, n).contains(':'),
    decreases n,
{
    let f = found[n - 1];
    if let IpAddr::V4(a) = f.ip {
        lemma_v4_text(a);
    }
    if n == k + 1 {
        assert(found[k].wf());
    } else {
        lemma_settled(found, k, n - 1);
        let before = settled_ip(found, k, n - 1);
        assert(f.wf());
        let j = choose|j: int|
            k <= j < n - 1 && (#[trigger] found[j]).instance@ == found[k].instance@ && before
                == found[j].ip_text@;
        assert(found[j].instance@ == found[k].instance@);
        if exists|j: int|
            k <= j < n - 1 && (#[trigger] found[j]).instance@ == found[k].instance@ && found[j].ip is V4 {
            let v = choose|j: int|
                k <= j < n - 1 && (#[trigger] found[j]).instance@ == found[k].instance@
                    && found[j].ip is V4;
            assert(found[v].ip is V4);
        }
    }
}

/// A device that was found at an IPv4 address, be it first or later, is listed at one: at an address
/// that was found under its name, and at one with colons only when no other was found. It is this
/// device exactly when that address is one of this device's.
pub proof fn law_ipv4_address_is_preferred(
    found: Seq<Found>,
    self_ips: Seq<Seq<char>>,
    r: Seq<Candidate>,
    i: int,
)
    requires
        forall|j: int| 0 <= j < found.len() ==> (#[trigger] found[j]).wf(),
        merged(found, self_ips, r),
        0 <= i < r.len(),
    ensures
        ({
            let k = first_finds(found, found.len() as int)[i];
            let d = r[i].device@;
            &&& exists|j: int|
                0 <= j < found.len() && (#[trigger] found[j]).instance@ == found[k].instance@
                    && d.ip == found[j].ip_text@
            &&& (exists|j: int|
                0 <= j < found.len() && (#[trigger] found[j]).instance@ == found[k].instance@
                    && found[j].ip is V4) <==> !d.ip.contains(':')
            &&& d.is_self == self_ips.contains(d.ip)
        }),
{
    let n = found.len() as int;
    let k = first_finds(found, n)[i];
    lemma_first_finds(found, n);
    lemma_settled(found, k, n);
    let j = choose|j: int|
        k <= j < n && (#[trigger] found[j]).instance@ == found[k].instance@ && settled_ip(found, k, n)
            == found[j].ip_text@;
    assert(found[j].instance@ == found[k].instance@);
    if exists|j: int|
        0 <= j < n && (#[trigger] found[j]).instance@ == found[k].instance@ && found[j].ip is V4 {
        let v = choose|j: int|
            0 <= j < n && (#[trigger] found[j]).instance@ == found[k].instance@ && found[j].ip is V4;
        assert(is_first(found, k));
        assert(k <= v);
        assert(found[v].ip is V4);
    }
}

/// However often services are found, each name is listed once.
pub proof fn law_names_are_listed_once(
    found: Seq<Found>,
    self_ips: Seq<Seq<char>>,
    r: Seq<Candidate>,
    k: int,
)
    requires
        merged(found, self_ips, r),
        0 <= k < found.len(),
    ensures
        exists|i: int|
            0 <= i < r.len() && found[#[trigger] first_finds(
                found,
                found.len() as int,
            )[i]].instance@ == found[k].instance@,
        forall|i: int, j: int|
            0 <= i < j < r.len() ==> found[#[trigger] first_finds(
                found,
                found.len() as int,
            )[i]].instance@ != found[#[trigger] first_finds(
                found,
                found.len() as int,
            )[j]].instance@,
{
    let firsts = first_finds(found, found.len() as int);
    lemma_first_finds(found, found.len() as int);
    let f = lemma_has_first(found, k);
    assert(firsts.contains(f));
    let i = choose|i: int| 0 <= i < firsts.len() && firsts[i] == f;
    assert(found[firsts[i]].instance@ == found[k].instance@);
    assert forall|i: int, j: int|
        0 <= i < j < r.len() implies found[#[trigger] firsts[i]].instance@
        != found[#[trigger] firsts[j]].instance@ by {
        assert(is_first(found, firsts[j]));
        assert(i < j ==> firsts[i] < firsts[j]);
    }
}

/// Adding what was typed in removes nothing, and adds no second device at one place.
pub proof fn law_typed_devices_are_added_once(v: Seq<DeviceModel>, more: Seq<DeviceModel>)
    ensures
        v.len() <= with_typed(v, more).len(),
        with_typed(v, more).take(v.len() as int) == v,
        forall|i: int, j: int|
            #![trigger with_typed(v, more)[i], with_typed(v, more)[j]]
            0 <= i < j < with_typed(v, more).len() && v.len() <= j ==> !(with_typed(v, more)[i].ip
                == with_typed(v, more)[j].ip && with_typed(v, more)[i].port == with_typed(
                v,
                more,
            )[j].port),
    decreases more.len(),
{
    if more.len() == 0 {
        assert(v.take(v.len() as int) =~= v);
    } else {
        law_typed_devices_are_added_once(v, more.drop_last());
        let before = with_typed(v, more.drop_last());
        let after = with_typed(v, more);
        assert(after.take(v.len() as int) =~= before.take(v.len() as int));
        assert forall|i: int, j: int|
            #![trigger after[i], after[j]]
            0 <= i < j < after.len() && v.len() <= j implies !(after[i].ip == after[j].ip
            && after[i].port == after[j].port) by {
            if j == before.len() {
                assert(before[i] == after[i]);
            } else {
                assert(before[i] == after[i] && before[j] == after[j]);
            }
        }
    }
}

/// A listed device says what its announcement said: the first find of each name gives a device, with
/// the port that was found and, when its announcement could be understood, the name, roles, media,
/// transports and endpoints of it. Without one the device bears the name of the service and says
/// nothing more. It has not been asked yet.
pub proof fn law_device_says_what_it_announced(
    found: Vec<Found>,
    self_ips: &Vec<String>,
    r: Vec<Candidate>,
    k: int,
) -> (i: int)
    requires
        call_ensures(merge_found, (found, self_ips), r),
        0 <= k < found@.len(),
        forall|j: int| 0 <= j < k ==> (#[trigger] found@[j]).instance@ != found@[k].instance@,
    ensures
        0 <= i < r@.len(),
        ({
            let d = r@[i].device;
            let f = found@[k];
            &&& d.port == f.port
            &&& f.info matches Some(a) ==> {
                &&& d.name@ == a.name@
                &&& d.roles@ == a.roles@
                &&& d.media@ == a.media@
                &&& d.transports@ == a.transports@
                &&& d.endpoints@.len() == a.endpoints@.len()
                &&& forall|j: int|
                    0 <= j < a.endpoints@.len() ==> {
                        let e = #[trigger] d.endpoints@[j];
                        let s = a.endpoints@[j];
                        e.kind == s.kind && e.endpoint_id == s.endpoint_id && e.name@ == s.name@
                            && e.available == s.available && e.published == s.published
                    }
            }
            &&& f.info is None ==> d.name@ == f.instance@ && d.roles@.len() == 0 && d.media@.len()
                == 0 && d.transports@.len() == 0 && d.endpoints@.len() == 0
            &&& !d.online
            &&& d.srt_port is None
            &&& d.quic_port is None
            &&& d.streams@.len() == 0
        }),
{
    let n = found@.len() as int;
    let firsts = first_finds(found@, n);
    lemma_first_finds(found@, n);
    assert(is_first(found@, k));
    assert(firsts.contains(k));
    let i = choose|i: int| 0 <= i < firsts.len() && firsts[i] == k;
    let d = r@[i].device;
    let f = found@[k];
    assert(d@ == device_of(f, settled_ip(found@, k, n), texts(self_ips@)));
    assert(d.streams@.len() == view_models(d.streams@).len());
    assert(d.endpoints@.len() == summary_models(d.endpoints@).len());
    if f.info is Some {
        let a = f.info->0;
        assert(summary_models(d.endpoints@) == summary_models(a.endpoints@));
        assert(summary_models(a.endpoints@).len() == a.endpoints@.len());
        assert forall|j: int| 0 <= j < a.endpoints@.len() implies {
            let e = #[trigger] d.endpoints@[j];
            let s = a.endpoints@[j];
            e.kind == s.kind && e.endpoint_id == s.endpoint_id && e.name@ == s.name@ && e.available
                == s.available && e.published == s.published
        } by {
            assert(summary_models(d.endpoints@)[j] == d.endpoints@[j]@);
            assert(summary_models(a.endpoints@)[j] == a.endpoints@[j]@);
        }
    }
    i
}

/// No device is made up: each listed device stands for a find that was the first of its name, two
/// devices stand for two names, and they are listed in the order of those finds. The device lies at
/// an address that was found under that name; it is this device exactly when the address is one of
/// its own, and then it is asked at the loopback address, else at that very address.
pub proof fn law_device_stands_for_a_find(
    found: Vec<Found>,
    self_ips: &Vec<String>,
    r: Vec<Candidate>,
    i: int,
    j: int,
) -> (k: (int, int))
    requires
        forall|x: int| 0 <= x < found@.len() ==> (#[trigger] found@[x]).wf(),
        call_ensures(merge_found, (found, self_ips), r),
        0 <= i <= j < r@.len(),
    ensures
        0 <= k.0 <= k.1 < found@.len(),
        i < j ==> k.0 < k.1,
        forall|x: int| 0 <= x < k.0 ==> (#[trigger] found@[x]).instance@ != found@[k.0].instance@,
        forall|x: int| 0 <= x < k.1 ==> (#[trigger] found@[x]).instance@ != found@[k.1].instance@,
        r@[i].device.port == found@[k.0].port,
        r@[j].device.port == found@[k.1].port,
        exists|x: int|
            0 <= x < found@.len() && (#[trigger] found@[x]).instance@ == found@[k.0].instance@
                && r@[i].device.ip@ == found@[x].ip_text@,
        r@[i].device.is_self <==> exists|y: int|
            0 <= y < self_ips@.len() && (#[trigger] self_ips@[y])@ == r@[i].device.ip@,
        r@[i].probe_ip@ == (if r@[i].device.is_self {
            "127.0.0.1"@
        } else {
            r@[i].device.ip@
        }),
{
    let n = found@.len() as int;
    let firsts = first_finds(found@, n);
    lemma_first_finds(found@, n);
    assert(i < j ==> firsts[i] < firsts[j]);
    assert(is_first(found@, firsts[i]) && is_first(found@, firsts[j]));
    lemma_settled(found@, firsts[i], n);
    let d = r@[i].device;
    assert(d@ == device_of(found@[firsts[i]], settled_ip(found@, firsts[i], n), texts(self_ips@)));
    assert(d.is_self == texts(self_ips@).contains(d.ip@));
    if d.is_self {
        let y = choose|y: int|
            0 <= y < texts(self_ips@).len() && texts(self_ips@)[y] == d.ip@;
        assert(self_ips@[y]@ == d.ip@);
    }
    if exists|y: int| 0 <= y < self_ips@.len() && (#[trigger] self_ips@[y])@ == d.ip@ {
        let y = choose|y: int| 0 <= y < self_ips@.len() && (#[trigger] self_ips@[y])@ == d.ip@;
        assert(texts(self_ips@)[y] == d.ip@);
    }
    assert(r@[j].device@ == device_of(
        found@[firsts[j]],
        settled_ip(found@, firsts[j], n),
        texts(self_ips@),
    ));
    (firsts[i], firsts[j])
}

/// A scan lists every candidate, as it was announced. It is online when its relay told its ports, and
/// shows these ports and the streams that were told: their names and titles, how many watch, and
/// whether there are pictures and sound.
pub proof fn law_scan_lists_every_device(
    candidates: Vec<Candidate>,
    answers: Vec<Answers>,
    r: Vec<ScannedDevice>,
    i: int,
) -> (p: int)
    requires
        candidates@.len() == answers@.len(),
        call_ensures(finish_scan, (candidates, answers), r),
        0 <= i < candidates@.len(),
        !candidates@[i].device.online,
    ensures
        r@.len() == candidates@.len(),
        0 <= p < r@.len(),
        ({
            let c = candidates@[i].device;
            let d = r@[p];
            let a = answers@[i];
            &&& d.name@ == c.name@
            &&& d.ip@ == c.ip@
            &&& d.port == c.port
            &&& d.is_self == c.is_self
            &&& d.roles@ == c.roles@
            &&& d.media@ == c.media@
            &&& d.transports@ == c.transports@
            &&& summary_models(d.endpoints@) == summary_models(c.endpoints@)
            &&& d.online <==> a.ports is Some
            &&& a.ports matches Some(x) ==> d.srt_port == x.srt_port && d.quic_port == x.quic_port
            &&& a.streams matches Some(v) ==> d.streams@.len() == v@.len() && forall|j: int|
                0 <= j < v@.len() ==> {
                    let s = #[trigger] d.streams@[j];
                    s.stream_id@ == v@[j].stream_id@ && s.title@ == v@[j].title@ && s.watchers
                        == v@[j].watchers && (s.video <==> v@[j].video is Some) && (s.audio
                        <==> v@[j].audio is Some)
                }
        }),
{
    let (devices, order) = choose|devices: Seq<ScannedDevice>, order: Seq<int>|
        all_asked(candidates@, answers@, devices) && #[trigger] stably_sorted(devices, r@, order);
    let p = lemma_reached(order, i);
    let c = candidates@[i].device;
    let d = r@[p];
    let a = answers@[i];
    assert(d == devices[i]);
    assert(d@ == asked(c@, a.ports, a.streams));
    if a.streams is Some {
        let v = a.streams->0;
        assert(view_models(d.streams@) == all_shown(v@));
        assert(view_models(d.streams@).len() == d.streams@.len());
        assert(all_shown(v@).len() == v@.len());
        assert forall|j: int| 0 <= j < v@.len() implies {
            let s = #[trigger] d.streams@[j];
            s.stream_id@ == v@[j].stream_id@ && s.title@ == v@[j].title@ && s.watchers
                == v@[j].watchers && (s.video <==> v@[j].video is Some) && (s.audio
                <==> v@[j].audio is Some)
        } by {
            assert(view_models(d.streams@)[j] == d.streams@[j]@);
            assert(all_shown(v@)[j] == shown(v@[j]));
        }
    }
    p
}

/// This device is listed before all others, and the devices of each kind are listed by name.
pub proof fn law_own_device_comes_first(
    candidates: Vec<Candidate>,
    answers: Vec<Answers>,
    r: Vec<ScannedDevice>,
    i: int,
    j: int,
    first: &str,
    second: &str,
    in_order: bool,
)
    requires
        candidates@.len() == answers@.len(),
        call_ensures(finish_scan, (candidates, answers), r),
        0 <= i < j < r@.len(),
        first@ == r@[i].name@,
        second@ == r@[j].name@,
        call_ensures(text_leq, (first, second), in_order),
    ensures
        r@[j].is_self ==> r@[i].is_self,
        r@[i].is_self == r@[j].is_self ==> in_order,
{
    let (devices, order) = choose|devices: Seq<ScannedDevice>, order: Seq<int>|
        all_asked(candidates@, answers@, devices) && #[trigger] stably_sorted(devices, r@, order);
    assert(r@[i].le(&r@[j]));
}

/// A device that answers who it is is listed as it said: its name, roles, media, transports and
/// endpoints, at the host that was asked and at the relay ports that it named.
pub proof fn law_answering_device_is_listed_as_it_said(
    host: &str,
    self_ips: &Vec<String>,
    m: DiscoveryResp,
    d: ScannedDevice,
)
    requires
        call_ensures(device_at, (host, self_ips, m), d),
    ensures
        d.name@ == m.name@,
        d.ip@ == host@,
        d.port == m.relay_port,
        d.srt_port == m.srt_port,
        d.quic_port == m.quic_port,
        d.roles@ == m.roles@,
        d.media@ == m.media@,
        d.transports@ == m.transports@,
        d.endpoints@.len() == m.endpoints@.len(),
        forall|j: int|
            0 <= j < m.endpoints@.len() ==> (#[trigger] d.endpoints@[j])@ == m.endpoints@[j]@,
        !d.online,
        d.is_self <==> exists|y: int|
            0 <= y < self_ips@.len() && (#[trigger] self_ips@[y])@ == host@,
{
    assert(summary_models(d.endpoints@) == summary_models(m.endpoints@));
    assert(summary_models(d.endpoints@).len() == d.endpoints@.len());
    assert(summary_models(m.endpoints@).len() == m.endpoints@.len());
    assert forall|j: int| 0 <= j < m.endpoints@.len() implies (#[trigger] d.endpoints@[j])@
        == m.endpoints@[j]@ by {
        assert(summary_models(d.endpoints@)[j] == summary_models(m.endpoints@)[j]);
    }
    if d.is_self {
        let y = choose|y: int|
            0 <= y < texts(self_ips@).len() && texts(self_ips@)[y] == host@;
        assert(self_ips@[y]@ == host@);
    }
    if exists|y: int| 0 <= y < self_ips@.len() && (#[trigger] self_ips@[y])@ == host@ {
        let y = choose|y: int| 0 <= y < self_ips@.len() && (#[trigger] self_ips@[y])@ == host@;
        assert(texts(self_ips@)[y] == host@);
    }
}

/// An address that is typed in as `http://`, a host, a colon, a port in decimal and anything behind a
/// slash names the device at that host and port, whatever the host is called, as long as it has no
/// slash.
pub proof fn law_typed_address_names_its_device(
    base: &str,
    host: Seq<char>,
    port: u16,
    rest: Seq<char>,
    r: Option<ScannedDevice>,
)
    requires
        call_ensures(parse_base, (base,), r),
        base@ == "http://"@ + host + ":"@ + dec(port as nat) + rest,
        !host.contains('/'),
        rest.len() == 0 || rest[0] == '/',
    ensures
        r matches Some(d) && d.ip@ == host && d.port == port && d.name@ == host + ":"@ + dec(
            port as nat,
        ) && !d.is_self && !d.online,
{
    reveal_strlit("http://");
    reveal_strlit("https://");
    reveal_strlit(":");
    let digits = dec(port as nat);
    lemma_parse_number(port as nat, u16::MAX as nat);
    lemma_parse_dec(port as nat, u16::MAX as nat);
    let a = host + ":"@ + digits;
    let s = a + rest;
    assert(base@.skip(7) =~= s);
    assert(base@.subrange(0, 7) =~= "http://"@);
    assert forall|i: int| 0 <= i < a.len() implies #[trigger] a[i] != '/' by {
        if i < host.len() {
            assert(host.contains(host[i]));
        } else if i > host.len() {
            assert(a[i] == digits[i - host.len() - 1]);
        }
    }
    lemma_first_place_is(s, '/', a.len() as int);
    assert(s.take(a.len() as int) =~= a);
    assert(authority(base@) == Some(a));
    lemma_last_colon_at(a, host.len() as int);
    assert(a.skip(host.len() as int + 1) =~= digits);
    assert(a.take(host.len() as int) =~= host);
}

proof fn lemma_last_colon_at(s: Seq<char>, k: int)
    requires
        0 <= k < s.len(),
        s[k] == ':',
        forall|i: int| k < i < s.len() ==> #[trigger] s[i] != ':',
    ensures
        last_colon(s) == k,
    decreases s.len(),
{
    if k < s.len() - 1 {
        assert(s[s.len() - 1] != ':');
        lemma_last_colon_at(s.drop_last(), k);
    }
}

/// The hosts that are asked are those of the networks that this device has an address in: each host of
/// such a network from the first to the last but the two ends, and no other. Networks of the device
/// itself, of one link only, and made up ones are left out.
pub proof fn law_hosts_of_own_networks_are_asked(
    self_ips: &Vec<IpAddr>,
    r: Vec<Ipv4>,
    i: int,
    host: u8,
) -> (p: int)
    requires
        call_ensures(scan_hosts, (self_ips,), r),
        0 <= i < self_ips@.len(),
        self_ips@[i] is V4,
        1 <= host <= 254,
        ({
            let x = self_ips@[i]->V4_0;
            x.a != 127 && !(x.a == 169 && x.b == 254) && !(x.a == 198 && (x.b == 18 || x.b == 19))
        }),
    ensures
        0 <= p < r@.len(),
        r@[p].a == self_ips@[i]->V4_0.a,
        r@[p].b == self_ips@[i]->V4_0.b,
        r@[p].c == self_ips@[i]->V4_0.c,
        r@[p].d == host,
{
    let nets = choose|nets: Seq<Ipv4>|
        {
            &&& #[trigger] ascending(nets)
            &&& forall|net: Ipv4| #[trigger] nets.contains(net) <==> own_network(self_ips@, net)
            &&& r@ == hosts_of(nets)
        };
    let net = self_ips@[i]->V4_0.network();
    assert(scannable(self_ips@[i]));
    assert(own_network(self_ips@, net));
    assert(nets.contains(net));
    let n = choose|n: int| 0 <= n < nets.len() && nets[n] == net;
    let p = n * 254 + host - 1;
    assert(p / 254 == n && p % 254 == host - 1) by (nonlinear_arith)
        requires
            p == n * 254 + host - 1,
            1 <= host,
            host <= 254,
            n >= 0,
    ;
    assert(p < nets.len() * 254) by (nonlinear_arith)
        requires
            p == n * 254 + host - 1,
            host <= 254,
            n + 1 <= nets.len(),
    ;
    assert(p >= 0) by (nonlinear_arith)
        requires
            p == n * 254 + host - 1,
            1 <= host,
            n >= 0,
    ;
    assert(r@[p] == hosts_of(nets)[p]);
    p
}

/// No host outside of those networks is asked.
pub proof fn law_no_other_host_is_asked(self_ips: &Vec<IpAddr>, r: Vec<Ipv4>, p: int) -> (i: int)
    requires
        call_ensures(scan_hosts, (self_ips,), r),
        0 <= p < r@.len(),
    ensures
        0 <= i < self_ips@.len(),
        self_ips@[i] is V4,
        self_ips@[i]->V4_0.a == r@[p].a,
        self_ips@[i]->V4_0.b == r@[p].b,
        self_ips@[i]->V4_0.c == r@[p].c,
        1 <= r@[p].d <= 254,
        r@[p].a != 127,
{
    let nets = choose|nets: Seq<Ipv4>|
        {
            &&& #[trigger] ascending(nets)
            &&& forall|net: Ipv4| #[trigger] nets.contains(net) <==> own_network(self_ips@, net)
            &&& r@ == hosts_of(nets)
        };
    assert(0 <= p / 254 < nets.len()) by (nonlinear_arith)
        requires
            0 <= p < nets.len() * 254,
    ;
    let net = nets[p / 254];
    assert(nets.contains(net));
    assert(own_network(self_ips@, net));
    let i = choose|i: int|
        0 <= i < self_ips@.len() && scannable(#[trigger] self_ips@[i]) && net
            == self_ips@[i]->V4_0.network();
    assert(r@[p] == hosts_of(nets)[p]);
    i
}

/// Hosts are asked one by one only when nobody else was found.
pub proof fn law_hosts_are_asked_when_alone(devices: &Vec<ScannedDevice>, r: bool, i: int)
    requires
        call_ensures(needs_host_scan, (devices,), r),
        0 <= i < devices@.len(),
    ensures
        !devices@[i].is_self ==> !r,
        (forall|j: int| 0 <= j < devices@.len() ==> (#[trigger] devices@[j]).is_self) ==> r,
{
}

/// What was typed in is listed behind what was found, unless something is listed at the same place
/// already; what was found stays as it is.
pub proof fn law_typed_device_is_listed(
    devices: Vec<ScannedDevice>,
    typed: Vec<ScannedDevice>,
    r: Vec<ScannedDevice>,
    i: int,
) -> (p: int)
    requires
        call_ensures(add_typed, (devices, typed), r),
        0 <= i < typed@.len(),
    ensures
        0 <= p < r@.len(),
        r@[p].ip@ == typed@[i].ip@,
        r@[p].port == typed@[i].port,
        r@.len() >= devices@.len(),
        forall|j: int| 0 <= j < devices@.len() ==> (#[trigger] r@[j])@ == devices@[j]@,
{
    let v = device_models(devices@);
    let more = device_models(typed@);
    let w = with_typed(v, more);
    law_typed_devices_are_added_once(v, more);
    lemma_typed_is_placed(v, more, i);
    assert(device_models(r@) == w);
    assert(device_models(r@).len() == r@.len());
    assert(v.len() == devices@.len());
    assert forall|j: int| 0 <= j < devices@.len() implies (#[trigger] r@[j])@ == devices@[j]@ by {
        assert(device_models(r@)[j] == r@[j]@);
        assert(w.take(v.len() as int)[j] == v[j]);
    }
    assert(more[i] == typed@[i]@);
    let p = choose|p: int|
        0 <= p < w.len() && (#[trigger] w[p]).ip == more[i].ip && w[p].port == more[i].port;
    assert(device_models(r@)[p] == r@[p]@);
    p
}

proof fn lemma_typed_is_placed(v: Seq<DeviceModel>, more: Seq<DeviceModel>, i: int)
    requires
        0 <= i < more.len(),
    ensures
        has_place(with_typed(v, more), more[i].ip, more[i].port),
    decreases more.len(),
{
    let p = more.drop_last();
    let before = with_typed(v, p);
    let after = with_typed(v, more);
    let d = more.last();
    if i < p.len() {
        lemma_typed_is_placed(v, p, i);
        let j = choose|j: int|
            0 <= j < before.len() && (#[trigger] before[j]).ip == p[i].ip && before[j].port
                == p[i].port;
        assert(after[j] == before[j]);
    } else if !has_place(before, d.ip, d.port) {
        assert(after[before.len() as int] == d);
    }
}

/// Slashes at the end of an address do not count.
pub proof fn law_trailing_slashes_do_not_count(s: &str, base: Seq<char>, n: nat, r: String)
    requires
        call_ensures(trim_slashes, (s,), r),
        s@ == base + Seq::new(n, |i: int| '/'),
        base.len() == 0 || base.last() != '/',
    ensures
        r@ == base,
{
    lemma_trailing_slashes(base, n);
}

proof fn lemma_trailing_slashes(base: Seq<char>, n: nat)
    requires
        base.len() == 0 || base.last() != '/',
    ensures
        without_slashes(base + Seq::new(n, |i: int| '/')) == base,
    decreases n,
{
    let s = base + Seq::new(n, |i: int| '/');
    if n == 0 {
        assert(s =~= base);
    } else {
        let m = (n - 1) as nat;
        assert(s.last() == '/');
        assert(s.drop_last() =~= base + Seq::new(m, |i: int| '/'));
        lemma_trailing_slashes(base, m);
    }
}

/// A device is waited for at least a tenth of a second, and a host of a full scan at most three
/// tenths; in between as long as it was said.
pub proof fn law_waiting_is_bounded(ms: u64, device: u64, host: u64)
    requires
        call_ensures(scan_probe_ms, (ms,), device),
        call_ensures(host_probe_ms, (ms,), host),
    ensures
        device >= 100,
        device >= ms,
        ms >= 100 ==> device == ms,
        host <= 300,
        host <= ms,
        ms <= 300 ==> host == ms,
{
}

/// A relay that answers is asked who it is at the discovery port of its host.
pub proof fn law_host_is_asked_at_its_port(host: &str, r: String)
    requires
        call_ensures(discovery_url, (host,), r),
    ensures
        r@ == "http://"@ + host@ + ":"@ + dec(18779) + "/api/discovery"@,
{
}

proof fn lemma_plain_stays(found: Seq<Found>, k: int, m: int, n: int)
    requires
        0 <= k < m <= n <= found.len(),
        !settled_ip(found, k, m).contains(':'),
    ensures
        settled_ip(found, k, n) == settled_ip(found, k, m),
    decreases n,
{
    if n > m {
        lemma_plain_stays(found, k, m, n - 1);
    }
}

/// A device is shown at the first IPv4 address that was found for it, whatever is found for it later.
pub proof fn law_device_is_shown_at_its_first_plain_address(
    found: Vec<Found>,
    self_ips: &Vec<String>,
    r: Vec<Candidate>,
    k: int,
    x: int,
) -> (i: int)
    requires
        forall|j: int| 0 <= j < found@.len() ==> (#[trigger] found@[j]).wf(),
        call_ensures(merge_found, (found, self_ips), r),
        0 <= k <= x < found@.len(),
        forall|j: int| 0 <= j < k ==> (#[trigger] found@[j]).instance@ != found@[k].instance@,
        found@[x].instance@ == found@[k].instance@,
        found@[x].ip is V4,
        forall|j: int|
            0 <= j < x && (#[trigger] found@[j]).instance@ == found@[k].instance@
                ==> !(found@[j].ip is V4),
    ensures
        0 <= i < r@.len(),
        r@[i].device.port == found@[k].port,
        r@[i].device.ip@ == found@[x].ip_text@,
{
    let n = found@.len() as int;
    let firsts = first_finds(found@, n);
    lemma_first_finds(found@, n);
    assert(is_first(found@, k));
    assert(firsts.contains(k));
    let i = choose|i: int| 0 <= i < firsts.len() && firsts[i] == k;
    assert(r@[i].device@ == device_of(found@[k], settled_ip(found@, k, n), texts(self_ips@)));
    assert(found@[x].wf());
    if let IpAddr::V4(a) = found@[x].ip {
        lemma_v4_text(a);
    }
    if x > k {
        lemma_settled(found@, k, x);
        assert(settled_ip(found@, k, x).contains(':'));
    }
    assert(settled_ip(found@, k, x + 1) == found@[x].ip_text@);
    lemma_plain_stays(found@, k, x + 1, n);
    i
}

} // verus!
