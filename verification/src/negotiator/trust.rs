//! Who this device is, and which other devices its user trusts.

use vstd::prelude::*;
use vstd::string::*;

use crate::table::Table;
use crate::text::{
    chars_of, dec, decimal, hex, hexadecimal, is_space, join2, join3, pad_zeros, same, string_of, trim_space,
    trimmed_space, zero_padded,
};

verus! {

/// The lasting identity of this device.
#[derive(Debug)]
pub struct DeviceIdentity {
    pub device_id: String,
    pub device_name: String,
}

/// What an identity is, as a mathematical value.
#[verifier::ext_equal]
pub struct IdentityModel {
    pub device_id: Seq<char>,
    pub device_name: Seq<char>,
}

impl View for DeviceIdentity {
    type V = IdentityModel;

    open spec fn view(&self) -> IdentityModel {
        IdentityModel { device_id: self.device_id@, device_name: self.device_name@ }
    }
}

impl Clone for DeviceIdentity {
    fn clone(&self) -> (r: Self)
        ensures
            r == *self,
    {
        DeviceIdentity { device_id: self.device_id.clone(), device_name: self.device_name.clone() }
    }
}

/// A device that the user trusts.
#[derive(Debug)]
pub struct TrustedDevice {
    pub name: String,
    /// Unix time in seconds.
    pub added_at: u64,
}

/// What a trusted device is, as a mathematical value.
pub struct TrustedModel {
    pub name: Seq<char>,
    pub added_at: u64,
}

impl View for TrustedDevice {
    type V = TrustedModel;

    open spec fn view(&self) -> TrustedModel {
        TrustedModel { name: self.name@, added_at: self.added_at }
    }
}

/// The models of the trusted devices.
pub open spec fn trusted_models(m: Map<Seq<char>, TrustedDevice>) -> Map<Seq<char>, TrustedModel> {
    m.map_values(|d: TrustedDevice| d@)
}

/// The map that a list of entries stands for; of two entries of one device the later one counts.
pub open spec fn listed_devices(v: Seq<(String, TrustedDevice)>) -> Map<Seq<char>, TrustedModel>
    decreases v.len(),
{
    if v.len() == 0 {
        Map::empty()
    } else {
        listed_devices(v.drop_last()).insert(v.last().0@, v.last().1@)
    }
}

/// The devices that the user trusts, by device id.
pub struct TrustStore {
    devices: Table<String, TrustedDevice>,
}

impl View for TrustStore {
    type V = Map<Seq<char>, TrustedModel>;

    closed spec fn view(&self) -> Map<Seq<char>, TrustedModel> {
        trusted_models(self.devices@)
    }
}

/// The trusted devices after one was remembered: a new one under the given name, a known one under
/// the name that it has, with the time of now.
pub open spec fn remembered(
    trusted: Map<Seq<char>, TrustedModel>,
    device_id: Seq<char>,
    name: Seq<char>,
    now: u64,
) -> Map<Seq<char>, TrustedModel> {
    trusted.insert(
        device_id,
        TrustedModel {
            name: if trusted.dom().contains(device_id) {
                trusted[device_id].name
            } else {
                name
            },
            added_at: now,
        },
    )
}

impl TrustStore {
    pub closed spec fn wf(&self) -> bool {
        self.devices.wf()
    }

    /// The list as it was kept; without one nobody is trusted.
    pub fn load(kept: Option<Vec<(String, TrustedDevice)>>) -> (r: TrustStore)
        ensures
            r.wf(),
            r@ == (match kept {
                Some(v) => listed_devices(v@),
                None => Map::<Seq<char>, TrustedModel>::empty(),
            }),
    {
        let mut r = TrustStore { devices: Table::new() };
        assert(r@ =~= Map::<Seq<char>, TrustedModel>::empty());
        match kept {
            None => {},
            Some(v) => {
                let ghost all = v@;
                let mut rest = v;
                let mut i: usize = 0;
                let n: usize = rest.len();
                assert(all.take(0) =~= Seq::<(String, TrustedDevice)>::empty());
                assert(all.skip(0) =~= all);
                while i < n
                    invariant
                        n == all.len(),
                        i <= n,
                        rest@ == all.skip(i as int),
                        r.wf(),
                        r@ == listed_devices(all.take(i as int)),
                    decreases n - i,
                {
                    let ghost before = r@;
                    let e = rest.remove(0);
                    let ghost m = (e.0@, e.1@);
                    let _ = r.devices.insert(e.0, e.1);
                    proof {
                        assert(r@ =~= before.insert(m.0, m.1));
                        let next = all.take(i as int + 1);
                        assert(next.drop_last() =~= all.take(i as int));
                        assert(next.last() == all[i as int]);
                        assert(rest@ =~= all.skip(i as int + 1));
                    }
                    i += 1;
                }
                assert(all.take(n as int) =~= all);
            },
        }
        r
    }

    /// Whether a device is trusted.
    pub fn is_trusted(&self, device_id: &str) -> (r: bool)
        requires
            self.wf(),
        ensures
            r == self@.dom().contains(device_id@),
    {
        self.devices.contains(&device_id.to_owned())
    }

    /// The name under which a device is trusted.
    pub fn trusted_name(&self, device_id: &str) -> (r: Option<String>)
        requires
            self.wf(),
        ensures
            match r {
                Some(n) => self@.dom().contains(device_id@) && n@ == self@[device_id@].name,
                None => !self@.dom().contains(device_id@),
            },
    {
        match self.devices.get(&device_id.to_owned()) {
            Some(d) => Some(d.name.clone()),
            None => None,
        }
    }

    /// Trusts a device from now on; of one that is trusted already, only the time changes.
    pub fn remember(&mut self, device_id: &str, name: &str, now: u64)
        requires
            old(self).wf(),
        ensures
            final(self).wf(),
            final(self)@ == remembered(old(self)@, device_id@, name@, now),
    {
        let known: String = match self.trusted_name(device_id) {
            Some(n) => n,
            None => name.to_owned(),
        };
        let d = TrustedDevice { name: known, added_at: now };
        let _ = self.devices.insert(device_id.to_owned(), d);
        assert(self@ =~= remembered(old(self)@, device_id@, name@, now));
    }

    /// Finitely many devices are trusted.
    pub proof fn lemma_finite(&self)
        requires
            self.wf(),
        ensures
            self@.dom().finite(),
    {
        self.devices.lemma_keys();
        assert(self@.dom() =~= self.devices@.dom());
    }

    /// The number of trusted devices.
    pub fn len(&self) -> (r: usize)
        requires
            self.wf(),
        ensures
            r == self@.dom().len(),
    {
        assert(self@.dom() =~= self.devices@.dom());
        self.devices.len()
    }

    /// Whether nobody is trusted.
    pub fn is_empty(&self) -> (r: bool)
        requires
            self.wf(),
        ensures
            r == (self@ == Map::<Seq<char>, TrustedModel>::empty()),
    {
        let n: usize = self.len();
        proof {
            self.devices.lemma_keys();
            assert(self@.dom() =~= self.devices@.dom());
            if n == 0 {
                assert(self@ =~= Map::<Seq<char>, TrustedModel>::empty());
            }
            if self@ == Map::<Seq<char>, TrustedModel>::empty() {
                assert(self@.dom() =~= Set::<Seq<char>>::empty());
            }
        }
        n == 0
    }

    /// The devices with their ids, to be kept.
    pub fn entries(&self) -> (r: Vec<(String, TrustedDevice)>)
        requires
            self.wf(),
        ensures
            listed_devices(r@) == self@,
            r@.len() == self@.dom().len(),
    {
        let mut r: Vec<(String, TrustedDevice)> = Vec::new();
        let mut i: usize = 0;
        let n: usize = self.devices.len();
        let ghost keys = self.devices.keys();
        proof {
            self.devices.lemma_keys();
            assert(self@.dom() =~= self.devices@.dom());
            assert(listed_devices(r@) =~= self@.restrict(keys.take(0).to_set()));
        }
        while i < n
            invariant
                self.wf(),
                n == keys.len(),
                keys == self.devices.keys(),
                keys.no_duplicates(),
                i <= n,
                r@.len() == i,
                listed_devices(r@) == self@.restrict(keys.take(i as int).to_set()),
            decreases n - i,
        {
            let k: String = self.devices.key_at(i).clone();
            let v = self.devices.value_at(i);
            let ghost before = r@;
            r.push((k, TrustedDevice { name: v.name.clone(), added_at: v.added_at }));
            proof {
                assert(r@.drop_last() =~= before);
                let next = keys.take(i as int + 1);
                assert(next.drop_last() =~= keys.take(i as int));
                assert(next =~= keys.take(i as int).push(keys[i as int]));
                assert forall|x: Seq<char>| next.to_set().contains(x) <==> keys.take(
                    i as int,
                ).to_set().insert(keys[i as int]).contains(x) by {
                    if next.contains(x) {
                        let j = choose|j: int| 0 <= j < next.len() && next[j] == x;
                        if j < i {
                            assert(keys.take(i as int)[j] == x);
                        }
                    }
                    if keys.take(i as int).contains(x) {
                        let j = choose|j: int|
                            0 <= j < i && keys.take(i as int)[j] == x;
                        assert(next[j] == x);
                    }
                    if x == keys[i as int] {
                        assert(next[i as int] == x);
                    }
                }
                assert(listed_devices(r@) =~= self@.restrict(next.to_set()));
            }
            i += 1;
        }
        proof {
            assert(keys.take(n as int) =~= keys);
            self.devices.lemma_keys();
            assert(listed_devices(r@) =~= self@);
        }
        r
    }
}

/// Whether a device name says nothing: it is blank, or the name that every Android device reports.
pub open spec fn placeholder_name(name: Seq<char>) -> bool {
    let n = trimmed_space(name);
    n.len() == 0 || n == "localhost"@ || n == "android"@
}

/// Whether a device name says nothing.
pub fn is_placeholder_name(name: &str) -> (r: bool)
    ensures
        r == placeholder_name(name@),
{
    let v = trim_space(&chars_of(name));
    let len: usize = v.len();
    let n: String = string_of(&v, 0, len);
    assert(v@.subrange(0, len as int) =~= v@);
    len == 0 || same(n.as_str(), "localhost") || same(n.as_str(), "android")
}

/// Two hexadecimal digits for each byte.
pub open spec fn hex_bytes(v: Seq<u8>) -> Seq<char>
    decreases v.len(),
{
    if v.len() == 0 {
        Seq::empty()
    } else {
        hex_bytes(v.drop_last()) + zero_padded(hex(v.last() as nat), 2)
    }
}

/// The id of a new device: its random bytes in hexadecimal, or, without any, the time and the
/// process number.
pub open spec fn device_id_text(random: Option<Seq<u8>>, now: u64, pid: u32) -> Seq<char> {
    match random {
        Some(v) => hex_bytes(v),
        None => "dev-"@ + dec(now as nat) + "-"@ + dec(pid as nat),
    }
}

/// The bytes of an optional list.
pub open spec fn bytes_view(v: Option<&Vec<u8>>) -> Option<Seq<u8>> {
    match v {
        Some(b) => Some(b@),
        None => None,
    }
}

/// The id of a new device. `random` holds bytes of the system's random source, if it could be
/// read.
pub fn new_device_id(random: Option<&Vec<u8>>, now: u64, pid: u32) -> (r: String)
    ensures
        r@ == device_id_text(bytes_view(random), now, pid),
{
    match random {
        Some(v) => {
            let mut r = String::new();
            let mut i: usize = 0;
            assert(v@.take(0) =~= Seq::<u8>::empty());
            while i < v.len()
                invariant
                    i <= v@.len(),
                    r@ == hex_bytes(v@.take(i as int)),
                decreases v.len() - i,
            {
                r.append(pad_zeros(hexadecimal(v[i] as u64).as_str(), 2).as_str());
                assert(v@.take(i as int + 1).drop_last() =~= v@.take(i as int));
                i += 1;
            }
            assert(v@.take(v@.len() as int) =~= v@);
            r
        },
        None => {
            let a: String = join2("dev-", decimal(now).as_str());
            join3(a.as_str(), "-", decimal(pid as u64).as_str())
        },
    }
}

/// The identity of this device, and whether it has to be written down.
pub struct SettledIdentity {
    pub identity: DeviceIdentity,
    pub changed: bool,
}

/// What the identity of this device comes to: the one that was kept, with `name` in place of a name
/// that says nothing; a new one when none was kept.
pub open spec fn identity_settled(
    kept: Option<IdentityModel>,
    name: Seq<char>,
    random: Option<Seq<u8>>,
    now: u64,
    pid: u32,
    identity: IdentityModel,
    changed: bool,
) -> bool {
    match kept {
        Some(id) => {
            &&& changed == placeholder_name(id.device_name)
            &&& identity == (IdentityModel {
                device_id: id.device_id,
                device_name: if changed {
                    name
                } else {
                    id.device_name
                },
            })
        },
        None => {
            &&& changed
            &&& identity == (IdentityModel {
                device_id: device_id_text(random, now, pid),
                device_name: name,
            })
        },
    }
}

/// The identity of this device: the one that was kept, with `name` in place of a name that says
/// nothing; a new one when none was kept.
pub fn load_or_create_identity(
    kept: Option<DeviceIdentity>,
    name: &str,
    random: Option<&Vec<u8>>,
    now: u64,
    pid: u32,
) -> (r: SettledIdentity)
    ensures
        identity_settled(
            match kept {
                Some(id) => Some(id@),
                None => None,
            },
            name@,
            bytes_view(random),
            now,
            pid,
            r.identity@,
            r.changed,
        ),
{
    match kept {
        Some(id) => {
            if is_placeholder_name(id.device_name.as_str()) {
                SettledIdentity {
                    identity: DeviceIdentity {
                        device_id: id.device_id,
                        device_name: name.to_owned(),
                    },
                    changed: true,
                }
            } else {
                SettledIdentity { identity: id, changed: false }
            }
        },
        None => SettledIdentity {
            identity: DeviceIdentity {
                device_id: new_device_id(random, now, pid),
                device_name: name.to_owned(),
            },
            changed: true,
        },
    }
}

/// An identity stays: once it was settled and kept, it comes back with the same device id at every
/// later start, whatever name, random bytes and time there are then; and unless its name says
/// nothing, it comes back as it was and need not be written down again.
pub proof fn law_identity_is_stable(
    kept: Option<IdentityModel>,
    name: Seq<char>,
    random: Option<Seq<u8>>,
    now: u64,
    pid: u32,
    first: IdentityModel,
    changed: bool,
    name2: Seq<char>,
    random2: Option<Seq<u8>>,
    now2: u64,
    pid2: u32,
    second: IdentityModel,
    changed2: bool,
)
    requires
        identity_settled(kept, name, random, now, pid, first, changed),
        identity_settled(Some(first), name2, random2, now2, pid2, second, changed2),
    ensures
        second.device_id == first.device_id,
        !placeholder_name(first.device_name) ==> second == first && !changed2,
{
}

/// Remembering a device again changes its time and nothing else: it is the same device under the
/// same name.
pub proof fn law_remembering_again_updates_the_time(
    before: Map<Seq<char>, TrustedModel>,
    device_id: Seq<char>,
    first: Seq<char>,
    second: Seq<char>,
    then: u64,
    now: u64,
)
    ensures
        remembered(remembered(before, device_id, first, then), device_id, second, now)
            == remembered(before, device_id, first, now),
        remembered(before, device_id, first, then).dom() == before.dom().insert(device_id),
{
    let once = remembered(before, device_id, first, then);
    assert(remembered(once, device_id, second, now) =~= remembered(before, device_id, first, now));
    assert(once.dom() =~= before.dom().insert(device_id));
}

/// A device that was remembered is trusted, under the name that it had when it was remembered first;
/// nobody else becomes trusted or ceases to be.
pub proof fn law_remembered_device_is_trusted(
    s: &mut TrustStore,
    id: &str,
    name: &str,
    now: u64,
    before: bool,
    known_as: Option<String>,
    after: bool,
    called: Option<String>,
    other: &str,
    was: bool,
    is: bool,
)
    requires
        call_ensures(TrustStore::remember, (s, id, name, now), ()),
        call_ensures(TrustStore::is_trusted, (&*old(s), id), before),
        call_ensures(TrustStore::trusted_name, (&*old(s), id), known_as),
        call_ensures(TrustStore::is_trusted, (&*final(s), id), after),
        call_ensures(TrustStore::trusted_name, (&*final(s), id), called),
        other@ != id@,
        call_ensures(TrustStore::is_trusted, (&*old(s), other), was),
        call_ensures(TrustStore::is_trusted, (&*final(s), other), is),
    ensures
        after,
        !before ==> (called matches Some(n) && n@ == name@),
        before ==> (called matches Some(n) && known_as is Some && n@ == known_as->0@),
        final(s)@[id@].added_at == now,
        is == was,
{
}

/// What was kept of the trusted devices comes back: the list that is kept, loaded again, trusts the same
/// devices under the same names. Without a list nobody is trusted.
pub proof fn law_kept_list_comes_back(
    s: &TrustStore,
    kept: Vec<(String, TrustedDevice)>,
    back: TrustStore,
    fresh: TrustStore,
    none: bool,
)
    requires
        s.wf(),
        call_ensures(TrustStore::entries, (s,), kept),
        call_ensures(TrustStore::load, (Some(kept),), back),
        call_ensures(TrustStore::load, (None,), fresh),
        call_ensures(TrustStore::is_empty, (&fresh,), none),
    ensures
        back@ == s@,
        none,
{
}

/// Every device of a list that was kept is trusted, under its name there; of two entries of one device
/// the later one counts. Devices that are not on the list are not trusted.
pub proof fn law_listed_device_is_trusted(
    v: Vec<(String, TrustedDevice)>,
    s: TrustStore,
    i: int,
    id: &str,
    trusted: bool,
    name: Option<String>,
    stranger: &str,
    known: bool,
)
    requires
        call_ensures(TrustStore::load, (Some(v),), s),
        0 <= i < v@.len(),
        forall|j: int| i < j < v@.len() ==> (#[trigger] v@[j]).0@ != v@[i].0@,
        id@ == v@[i].0@,
        call_ensures(TrustStore::is_trusted, (&s, id), trusted),
        call_ensures(TrustStore::trusted_name, (&s, id), name),
        forall|j: int| 0 <= j < v@.len() ==> (#[trigger] v@[j]).0@ != stranger@,
        call_ensures(TrustStore::is_trusted, (&s, stranger), known),
    ensures
        trusted,
        name matches Some(n) && n@ == v@[i].1.name@,
        s@[id@].added_at == v@[i].1.added_at,
        !known,
{
    lemma_listed_at(v@, i);
    lemma_unlisted(v@, stranger@);
}

proof fn lemma_listed_at(v: Seq<(String, TrustedDevice)>, i: int)
    requires
        0 <= i < v.len(),
        forall|j: int| i < j < v.len() ==> (#[trigger] v[j]).0@ != v[i].0@,
    ensures
        listed_devices(v).dom().contains(v[i].0@),
        listed_devices(v)[v[i].0@] == v[i].1@,
    decreases v.len(),
{
    if i < v.len() - 1 {
        let p = v.drop_last();
        assert(v[v.len() - 1].0@ != v[i].0@);
        assert forall|j: int| i < j < p.len() implies (#[trigger] p[j]).0@ != p[i].0@ by {
            assert(v[j].0@ != v[i].0@);
        }
        lemma_listed_at(p, i);
    }
}

proof fn lemma_unlisted(v: Seq<(String, TrustedDevice)>, id: Seq<char>)
    requires
        forall|j: int| 0 <= j < v.len() ==> (#[trigger] v[j]).0@ != id,
    ensures
        !listed_devices(v).dom().contains(id),
    decreases v.len(),
{
    if v.len() > 0 {
        let p = v.drop_last();
        assert(v[v.len() - 1].0@ != id);
        assert forall|j: int| 0 <= j < p.len() implies (#[trigger] p[j]).0@ != id by {
            assert(v[j].0@ != id);
        }
        lemma_unlisted(p, id);
    }
}

/// An identity that was kept stays the same device; its name is replaced only when it says nothing. A
/// device without one gets a new one under the name that is given, which has to be written down.
pub proof fn law_device_stays_the_same(
    kept: DeviceIdentity,
    name: &str,
    random: Option<&Vec<u8>>,
    now: u64,
    pid: u32,
    r: SettledIdentity,
    old_name: &str,
    blank: bool,
    first: SettledIdentity,
    id: String,
)
    requires
        call_ensures(load_or_create_identity, (Some(kept), name, random, now, pid), r),
        old_name@ == kept.device_name@,
        call_ensures(is_placeholder_name, (old_name,), blank),
        call_ensures(load_or_create_identity, (None, name, random, now, pid), first),
        call_ensures(new_device_id, (random, now, pid), id),
    ensures
        r.identity.device_id@ == kept.device_id@,
        r.changed == blank,
        blank ==> r.identity.device_name@ == name@,
        !blank ==> r.identity.device_name@ == kept.device_name@,
        first.identity.device_id@ == id@,
        first.identity.device_name@ == name@,
        first.changed,
{
}

/// The id of a new device has two digits for each random byte that there is, and tells them apart.
pub proof fn law_random_bytes_make_the_id(v: &Vec<u8>, now: u64, pid: u32, r: String)
    requires
        call_ensures(new_device_id, (Some(v), now, pid), r),
    ensures
        r@.len() == 2 * v@.len(),
{
    lemma_hex_bytes_len(v@);
}

proof fn lemma_hex_bytes_len(v: Seq<u8>)
    ensures
        hex_bytes(v).len() == 2 * v.len(),
    decreases v.len(),
{
    if v.len() > 0 {
        lemma_hex_bytes_len(v.drop_last());
        reveal_with_fuel(crate::text::numeral, 3);
        let n = v.last() as nat;
        assert(n < 256);
        assert(hex(n).len() <= 2);
    }
}

/// A name says nothing when it is blank or one that every device of a kind has, whatever white space is
/// around it; other names say something.
pub proof fn law_blank_names_say_nothing(name: &str, r: bool)
    requires
        call_ensures(is_placeholder_name, (name,), r),
    ensures
        name@.len() == 0 ==> r,
        name@ == "localhost"@ ==> r,
        name@ == "android"@ ==> r,
        name@.len() > 0 && !is_space(name@[0]) && !is_space(name@.last()) && name@ != "localhost"@
            && name@ != "android"@ ==> !r,
{
    reveal_strlit("localhost");
    reveal_strlit("android");
    let n = name@;
    if n.len() > 0 && !is_space(n[0]) && !is_space(n.last()) {
        assert(trimmed_space(n) == n);
    }
}

} // verus!
