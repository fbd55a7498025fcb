//! Names of received files: cleaning of untrusted names and the choice of an unused one.

use vstd::prelude::*;
use vstd::string::*;

use crate::text::{
    chars_of, dec, decimal, is_control, is_control_char, is_space, join2, lemma_numeral_injective,
    lemma_trimmed, numeral, string_of, trim_dots, trim_space, trimmed_dots, trimmed_space,
};

verus! {

/// `s` with backslashes turned into slashes.
pub open spec fn slashed(s: Seq<char>) -> Seq<char> {
    s.map_values(|c: char| if c == '\\' { '/' } else { c })
}

/// A path without the slashes and the current-directory components at its end.
pub open spec fn path_stem(s: Seq<char>) -> Seq<char>
    decreases s.len(),
{
    if s.len() > 0 && s.last() == '/' {
        path_stem(s.drop_last())
    } else if s.len() > 1 && s.last() == '.' && s[s.len() - 2] == '/' {
        path_stem(s.drop_last().drop_last())
    } else {
        s
    }
}

/// What follows the last slash.
pub open spec fn after_slash(s: Seq<char>) -> Seq<char>
    decreases s.len(),
{
    if s.len() == 0 {
        s
    } else if s.last() == '/' {
        Seq::empty()
    } else {
        after_slash(s.drop_last()).push(s.last())
    }
}

/// The final component of a slash-separated path; empty when the path has none or ends in a
/// reference to the current or the parent directory.
pub open spec fn last_component(s: Seq<char>) -> Seq<char> {
    let name = after_slash(path_stem(s));
    if name == seq!['.'] || name == seq!['.', '.'] {
        Seq::empty()
    } else {
        name
    }
}

/// `s` with separators and control characters replaced by underscores.
pub open spec fn underscored(s: Seq<char>) -> Seq<char> {
    s.map_values(
        |c: char|
            if c == '/' || c == '\\' || is_control(c) {
                '_'
            } else {
                c
            },
    )
}

/// The name that stands for a file without a usable name.
pub open spec fn fallback_name(unix_secs: u64) -> Seq<char> {
    "file_"@ + dec(unix_secs as nat)
}

/// The clean form of a file name from a peer: the final path component without separators,
/// control characters, surrounding white space and surrounding full stops.
pub open spec fn sanitized(raw: Seq<char>, unix_secs: u64) -> Seq<char> {
    let name = trimmed_dots(trimmed_space(underscored(last_component(slashed(raw)))));
    if name.len() == 0 {
        fallback_name(unix_secs)
    } else {
        name
    }
}

fn last_component_of(v: &Vec<char>) -> (r: Vec<char>)
    ensures
        r@ == last_component(v@),
{
    let mut b: usize = v.len();
    let mut more: bool = true;
    assert(v@.take(b as int) =~= v@);
    while more
        invariant
            b <= v@.len(),
            path_stem(v@.take(b as int)) == path_stem(v@),
            !more ==> path_stem(v@) == v@.take(b as int),
        decreases b, (if more { 1nat } else { 0nat }),
    {
        let ghost t = v@.take(b as int);
        if b > 0 && v[b - 1] == '/' {
            assert(t.drop_last() =~= v@.take(b as int - 1));
            b -= 1;
        } else if b > 1 && v[b - 1] == '.' && v[b - 2] == '/' {
            assert(t.drop_last().drop_last() =~= v@.take(b as int - 2));
            b -= 2;
        } else {
            more = false;
        }
    }
    let mut a: usize = b;
    assert(v@.subrange(a as int, b as int) =~= Seq::<char>::empty());
    assert(after_slash(v@.take(b as int)) =~= after_slash(v@.take(a as int)) + v@.subrange(
        a as int,
        b as int,
    ));
    while a > 0 && v[a - 1] != '/'
        invariant
            a <= b <= v@.len(),
            after_slash(v@.take(b as int)) == after_slash(v@.take(a as int)) + v@.subrange(
                a as int,
                b as int,
            ),
        decreases a,
    {
        proof {
            let t = v@.take(a as int);
            assert(t.drop_last() =~= v@.take(a as int - 1));
            assert(after_slash(t) == after_slash(t.drop_last()).push(t.last()));
            assert(after_slash(t) + v@.subrange(a as int, b as int) =~= after_slash(t.drop_last())
                + v@.subrange(a as int - 1, b as int));
        }
        a -= 1;
    }
    assert(after_slash(v@.take(a as int)) =~= Seq::<char>::empty());
    let mut r: Vec<char> = Vec::new();
    let mut i: usize = a;
    while i < b
        invariant
            a <= i <= b <= v@.len(),
            r@ == v@.subrange(a as int, i as int),
        decreases b - i,
    {
        r.push(v[i]);
        i += 1;
        assert(r@ =~= v@.subrange(a as int, i as int));
    }
    assert(r@ =~= after_slash(path_stem(v@)));
    if r.len() == 1 && r[0] == '.' {
        assert(r@ =~= seq!['.']);
        return Vec::new();
    }
    if r.len() == 2 && r[0] == '.' && r[1] == '.' {
        assert(r@ =~= seq!['.', '.']);
        return Vec::new();
    }
    r
}

/// Cleans a file name from a peer so that it names a file inside the receiving directory;
/// `unix_secs` goes into the name when nothing usable is left.
pub fn sanitize_file_name(raw_name: &str, unix_secs: u64) -> (r: String)
    ensures
        r@ == sanitized(raw_name@, unix_secs),
{
    let raw = chars_of(raw_name);
    let mut slash: Vec<char> = Vec::new();
    let mut i: usize = 0;
    while i < raw.len()
        invariant
            raw@ == raw_name@,
            i <= raw@.len(),
            slash@ == slashed(raw@).take(i as int),
        decreases raw.len() - i,
    {
        let c: char = raw[i];
        slash.push(if c == '\\' { '/' } else { c });
        i += 1;
        assert(slash@ =~= slashed(raw@).take(i as int));
    }
    assert(slash@ =~= slashed(raw@));
    let name = last_component_of(&slash);
    let mut clean: Vec<char> = Vec::new();
    let mut j: usize = 0;
    while j < name.len()
        invariant
            j <= name@.len(),
            clean@ == underscored(name@).take(j as int),
        decreases name.len() - j,
    {
        let c: char = name[j];
        clean.push(if c == '/' || c == '\\' || is_control_char(c) { '_' } else { c });
        j += 1;
        assert(clean@ =~= underscored(name@).take(j as int));
    }
    assert(clean@ =~= underscored(name@));
    let t = trim_dots(&trim_space(&clean));
    let n: usize = t.len();
    if n == 0 {
        return join2("file_", decimal(unix_secs).as_str());
    }
    assert(t@.subrange(0, n as int) =~= t@);
    string_of(&t, 0, n)
}

/// A name that cannot leave the directory it is put in.
pub open spec fn safe_name(s: Seq<char>) -> bool {
    &&& s.len() > 0
    &&& s[0] != '.'
    &&& s.last() != '.'
    &&& forall|i: int|
        0 <= i < s.len() ==> {
            &&& #[trigger] s[i] != '/'
            &&& s[i] != '\\'
            &&& !is_control(s[i])
        }
}

proof fn lemma_numeral_chars(n: nat, base: nat)
    requires
        2 <= base <= 16,
    ensures
        numeral(n, base).len() > 0,
        forall|i: int|
            0 <= i < numeral(n, base).len() ==> {
                let c = #[trigger] numeral(n, base)[i];
                ('0' <= c && c <= '9') || ('a' <= c && c <= 'f')
            },
    decreases n,
{
    if n >= base {
        assert(n / base < n) by (nonlinear_arith)
            requires
                n >= base,
                base >= 2,
        ;
        assert(n % base < base) by (nonlinear_arith)
            requires
                base >= 2,
        ;
        lemma_numeral_chars(n / base, base);
    }
}

/// Whatever a peer sends, the clean name is not empty, does not begin or end with a full stop,
/// and holds no path separator and no control character.
pub proof fn law_sanitized_is_safe(raw: Seq<char>, unix_secs: u64)
    ensures
        safe_name(sanitized(raw, unix_secs)),
{
    let u = underscored(last_component(slashed(raw)));
    let t = trimmed_space(u);
    let d = trimmed_dots(t);
    lemma_trimmed(u, |c: char| crate::text::is_space(c));
    lemma_trimmed(t, |c: char| c == '.');
    if d.len() == 0 {
        let f = fallback_name(unix_secs);
        reveal_strlit("file_");
        lemma_numeral_chars(unix_secs as nat, 10);
        assert forall|i: int| 0 <= i < f.len() implies {
            &&& #[trigger] f[i] != '/'
            &&& f[i] != '\\'
            &&& !is_control(f[i])
        } by {
            if i >= 5 {
                assert(f[i] == dec(unix_secs as nat)[i - 5]);
            }
        }
        assert(f.last() == dec(unix_secs as nat).last());
    } else {
        assert forall|i: int| 0 <= i < d.len() implies {
            &&& #[trigger] d[i] != '/'
            &&& d[i] != '\\'
            &&& !is_control(d[i])
        } by {
            assert(t.contains(d[i]));
            let j = choose|j: int| 0 <= j < t.len() && t[j] == d[i];
            assert(u.contains(t[j]));
            let k = choose|k: int| 0 <= k < u.len() && u[k] == t[j];
        }
    }
}

/// The position of the last full stop, or -1.
pub open spec fn last_dot(s: Seq<char>) -> int
    decreases s.len(),
{
    if s.len() == 0 {
        -1
    } else if s.last() == '.' {
        s.len() - 1
    } else {
        last_dot(s.drop_last())
    }
}

/// The name with the number `i`, in front of the extension: `notes (1).txt`.
pub open spec fn numbered(name: Seq<char>, i: nat) -> Seq<char> {
    let d = last_dot(name);
    if d <= 0 {
        name + " ("@ + dec(i) + ")"@
    } else {
        name.take(d) + " ("@ + dec(i) + ")"@ + name.skip(d)
    }
}

/// The name with the number `i`, in front of the extension.
pub fn numbered_name(name: &str, i: u64) -> (r: String)
    ensures
        r@ == numbered(name@, i as nat),
{
    let v = chars_of(name);
    let n: usize = v.len();
    let mut d: usize = n;
    assert(v@.take(n as int) =~= v@);
    while d > 0 && v[d - 1] != '.'
        invariant
            d <= n == v@.len(),
            last_dot(v@.take(d as int)) == last_dot(v@),
        decreases d,
    {
        assert(v@.take(d as int).drop_last() =~= v@.take(d as int - 1));
        d -= 1;
    }
    assert(last_dot(v@) == d - 1);
    let at: usize = if d <= 1 {
        n
    } else {
        d - 1
    };
    let mut r: String = string_of(&v, 0, at);
    r.append(" (");
    r.append(decimal(i).as_str());
    r.append(")");
    r.append(string_of(&v, at, n).as_str());
    assert(r@ =~= numbered(name@, i as nat));
    r
}

/// Whether a name is among those that exist.
pub open spec fn taken_by(existing: Seq<String>, name: Seq<char>) -> bool {
    exists|i: int| 0 <= i < existing.len() && (#[trigger] existing[i])@ == name
}

fn is_taken(existing: &Vec<String>, name: &String) -> (r: bool)
    ensures
        r == taken_by(existing@, name@),
{
    let mut i: usize = 0;
    while i < existing.len()
        invariant
            i <= existing@.len(),
            forall|j: int| 0 <= j < i ==> (#[trigger] existing@[j])@ != name@,
        decreases existing.len() - i,
    {
        if existing[i] == *name {
            assert(existing@[i as int]@ == name@);
            return true;
        }
        i += 1;
    }
    false
}

/// Whether `got` is the name under which a file is kept: the clean name when it is free, else the
/// clean name with the least number, from one on, that is free.
pub open spec fn is_unique_name(
    existing: Seq<String>,
    clean: Seq<char>,
    got: Seq<char>,
) -> bool {
    if !taken_by(existing, clean) {
        got == clean
    } else {
        exists|i: nat|
            {
                &&& i >= 1
                &&& got == #[trigger] numbered(clean, i)
                &&& !taken_by(existing, got)
                &&& forall|j: nat| 1 <= j < i ==> taken_by(existing, #[trigger] numbered(clean, j))
            }
    }
}

/// The name under which a received file is kept, given the names that exist in the directory.
pub fn resolve_unique_name(name: &str, existing: &Vec<String>, unix_secs: u64) -> (r: String)
    requires
        existing@.len() < u64::MAX,
    ensures
        is_unique_name(existing@, sanitized(name@, unix_secs), r@),
        !taken_by(existing@, r@),
{
    let clean: String = sanitize_file_name(name, unix_secs);
    if !is_taken(existing, &clean) {
        return clean;
    }
    let n: usize = existing.len();
    let mut i: u64 = 1;
    while i <= n as u64
        invariant
            n == existing@.len(),
            1 <= i <= n + 1,
            n < u64::MAX,
            clean@ == sanitized(name@, unix_secs),
            taken_by(existing@, clean@),
            forall|j: nat| 1 <= j < i ==> taken_by(existing@, #[trigger] numbered(clean@, j)),
        decreases n + 1 - i,
    {
        let candidate: String = numbered_name(clean.as_str(), i);
        if !is_taken(existing, &candidate) {
            return candidate;
        }
        i += 1;
    }
    let candidate: String = numbered_name(clean.as_str(), i);
    proof {
        lemma_not_all_taken(existing@, clean@, (n + 1) as nat);
    }
    candidate
}

/// `n` names cannot take more than `n` numbered names.
proof fn lemma_not_all_taken(existing: Seq<String>, clean: Seq<char>, count: nat)
    requires
        count == existing.len() + 1,
    ensures
        exists|j: nat| 1 <= j <= count && !taken_by(existing, #[trigger] numbered(clean, j)),
{
    if forall|j: nat| 1 <= j <= count ==> taken_by(existing, #[trigger] numbered(clean, j)) {
        lemma_more_names_than_taken(existing, clean, count);
    }
}

proof fn lemma_more_names_than_taken(existing: Seq<String>, clean: Seq<char>, count: nat)
    requires
        forall|j: nat| 1 <= j <= count ==> taken_by(existing, #[trigger] numbered(clean, j)),
    ensures
        count <= existing.len(),
{
    let names = Seq::new(count, |i: int| numbered(clean, (i + 1) as nat));
    let held = existing.map_values(|s: String| s@);
    assert(names.no_duplicates()) by {
        assert forall|i: int, j: int|
            0 <= i < names.len() && 0 <= j < names.len() && i != j implies names[i] != names[j] by {
            lemma_numbered_injective(clean, (i + 1) as nat, (j + 1) as nat);
        }
    }
    assert(names.to_set().subset_of(held.to_set())) by {
        assert forall|x: Seq<char>| names.to_set().contains(x) implies held.to_set().contains(x) by {
            let i = choose|i: int| 0 <= i < names.len() && names[i] == x;
            let k = (i + 1) as nat;
            assert(taken_by(existing, numbered(clean, k)));
            let j = choose|j: int| 0 <= j < existing.len() && (#[trigger] existing[j])@ == x;
            assert(held[j] == x);
        }
    }
    names.unique_seq_to_set();
    held.lemma_cardinality_of_set();
    vstd::set_lib::lemma_len_subset(names.to_set(), held.to_set());
}

proof fn lemma_numbered_injective(clean: Seq<char>, i: nat, j: nat)
    ensures
        numbered(clean, i) == numbered(clean, j) ==> i == j,
{
    let d = if last_dot(clean) <= 0 {
        clean.len() as int
    } else {
        last_dot(clean)
    };
    lemma_last_dot_bound(clean);
    let a = numbered(clean, i);
    let b = numbered(clean, j);
    if a == b {
        reveal_strlit(" (");
        reveal_strlit(")");
        let tail = clean.len() - d + 1;
        assert(a.len() == d + 2 + dec(i).len() + tail);
        assert(b.len() == d + 2 + dec(j).len() + tail);
        assert(a.subrange(d + 2, d + 2 + dec(i).len()) =~= dec(i));
        assert(b.subrange(d + 2, d + 2 + dec(j).len()) =~= dec(j));
        lemma_numeral_injective(i, j, 10);
    }
}

proof fn lemma_last_dot_bound(s: Seq<char>)
    ensures
        -1 <= last_dot(s) < s.len(),
    decreases s.len(),
{
    if s.len() > 0 && s.last() != '.' {
        lemma_last_dot_bound(s.drop_last());
    }
}

/// The name under which a received file is kept cannot leave its directory either.
pub proof fn law_unique_name_is_safe(
    existing: Seq<String>,
    raw: Seq<char>,
    unix_secs: u64,
    got: Seq<char>,
)
    requires
        is_unique_name(existing, sanitized(raw, unix_secs), got),
    ensures
        safe_name(got),
{
    let clean = sanitized(raw, unix_secs);
    law_sanitized_is_safe(raw, unix_secs);
    if taken_by(existing, clean) {
        let i = choose|i: nat|
            {
                &&& i >= 1
                &&& got == #[trigger] numbered(clean, i)
                &&& !taken_by(existing, got)
                &&& forall|j: nat| 1 <= j < i ==> taken_by(existing, #[trigger] numbered(clean, j))
            };
        lemma_numeral_chars(i, 10);
        lemma_last_dot_bound(clean);
        reveal_strlit(" (");
        reveal_strlit(")");
        let d = if last_dot(clean) <= 0 {
            clean.len() as int
        } else {
            last_dot(clean)
        };
        let n = dec(i).len();
        assert(got =~= clean.take(d) + " ("@ + dec(i) + ")"@ + clean.skip(d));
        assert forall|k: int| 0 <= k < got.len() implies {
            &&& #[trigger] got[k] != '/'
            &&& got[k] != '\\'
            &&& !is_control(got[k])
        } by {
            if k < d {
                assert(got[k] == clean[k]);
            } else if k < d + 2 {
                assert(got[k] == " ("@[k - d]);
            } else if k < d + 2 + n {
                assert(got[k] == dec(i)[k - d - 2]);
            } else if k == d + 2 + n {
                assert(got[k] == ')');
            } else {
                assert(got[k] == clean[k - 3 - n]);
            }
        }
        assert(got[0] == clean[0]);
        if d < clean.len() {
            assert(got.last() == clean.last());
        } else {
            assert(got.last() == ')');
        }
    }
}

/// A usable name stays what it is, and of a path only its last part counts: whatever stands in front of
/// the last slash or backslash, a name without separators and control characters that neither begins
/// nor ends with white space or a full stop is kept.
pub proof fn law_usable_name_is_kept(
    raw: &str,
    front: Seq<char>,
    name: Seq<char>,
    unix_secs: u64,
    r: String,
)
    requires
        call_ensures(sanitize_file_name, (raw, unix_secs), r),
        raw@ == front + name,
        front.len() == 0 || front.last() == '/' || front.last() == '\\',
        name.len() > 0,
        forall|i: int|
            0 <= i < name.len() ==> #[trigger] name[i] != '/' && name[i] != '\\' && !is_control(
                name[i],
            ),
        !is_space(name[0]) && !is_space(name.last()),
        name[0] != '.' && name.last() != '.',
    ensures
        r@ == name,
{
    let s = slashed(raw@);
    let f = slashed(front);
    assert(s =~= f + name);
    assert(s.last() == name.last());
    assert(path_stem(s) == s);
    lemma_after_slash(f, name);
    assert(last_component(s) == name);
    let u = underscored(name);
    assert(u =~= name);
    assert(trimmed_space(name) == name);
    assert(trimmed_dots(name) == name);
}

proof fn lemma_after_slash(front: Seq<char>, name: Seq<char>)
    requires
        front.len() == 0 || front.last() == '/',
        forall|i: int| 0 <= i < name.len() ==> #[trigger] name[i] != '/',
    ensures
        after_slash(front + name) == name,
    decreases name.len(),
{
    let s = front + name;
    if name.len() == 0 {
        assert(s =~= front);
        assert(after_slash(front) =~= Seq::<char>::empty());
        assert(name =~= Seq::<char>::empty());
    } else {
        assert(s.last() == name.last());
        assert(name[name.len() - 1] != '/');
        assert(s.drop_last() =~= front + name.drop_last());
        lemma_after_slash(front, name.drop_last());
        assert(name.drop_last().push(name.last()) =~= name);
    }
}

/// Whatever name a peer sends, what becomes of it can be used for a file of the receiving folder, and
/// only there.
pub proof fn law_cleaned_name_is_safe(raw: &str, unix_secs: u64, r: String)
    requires
        call_ensures(sanitize_file_name, (raw, unix_secs), r),
    ensures
        r@.len() > 0,
        r@[0] != '.',
        r@.last() != '.',
        forall|i: int| 0 <= i < r@.len() ==> #[trigger] r@[i] != '/' && r@[i] != '\\',
        forall|i: int| 0 <= i < r@.len() ==> (#[trigger] r@[i] as u32) >= 0x20,
{
    law_sanitized_is_safe(raw@, unix_secs);
}

/// No file is overwritten: the name under which a received file is kept is not among those that are
/// there. It is the cleaned name when that is free; else a number stands in front of its ending.
pub proof fn law_no_file_is_overwritten(
    name: &str,
    existing: &Vec<String>,
    unix_secs: u64,
    clean: String,
    r: String,
    i: int,
)
    requires
        existing@.len() < u64::MAX,
        call_ensures(resolve_unique_name, (name, existing, unix_secs), r),
        call_ensures(sanitize_file_name, (name, unix_secs), clean),
        0 <= i < existing@.len(),
    ensures
        existing@[i]@ != r@,
        (forall|j: int| 0 <= j < existing@.len() ==> (#[trigger] existing@[j])@ != clean@) ==> r@
            == clean@,
        existing@[i]@ == clean@ ==> r@.len() > clean@.len(),
{
    assert(!taken_by(existing@, r@));
    if existing@[i]@ == clean@ {
        assert(taken_by(existing@, clean@));
        let k = choose|k: nat|
            {
                &&& k >= 1
                &&& r@ == #[trigger] numbered(clean@, k)
                &&& !taken_by(existing@, r@)
                &&& forall|j: nat| 1 <= j < k ==> taken_by(existing@, #[trigger] numbered(clean@, j))
            };
        lemma_last_dot_bound(clean@);
        reveal_strlit(" (");
        reveal_strlit(")");
        assert(numbered(clean@, k).len() == clean@.len() + 3 + dec(k).len());
    }
}

/// A number stands between a name and its ending, in brackets.
pub proof fn law_number_stands_before_the_ending(
    name: &str,
    stem: Seq<char>,
    ending: Seq<char>,
    i: u64,
    r: String,
)
    requires
        call_ensures(numbered_name, (name, i), r),
        name@ == stem + seq!['.'] + ending,
        stem.len() > 0,
        forall|j: int| 0 <= j < ending.len() ==> #[trigger] ending[j] != '.',
    ensures
        r@ == stem + " ("@ + dec(i as nat) + ")"@ + seq!['.'] + ending,
{
    lemma_last_dot_at(name@, stem.len() as int);
    assert(name@.take(stem.len() as int) =~= stem);
    assert(name@.skip(stem.len() as int) =~= seq!['.'] + ending);
    assert(r@ =~= stem + " ("@ + dec(i as nat) + ")"@ + seq!['.'] + ending);
}

proof fn lemma_last_dot_at(s: Seq<char>, k: int)
    requires
        0 <= k < s.len(),
        s[k] == '.',
        forall|i: int| k < i < s.len() ==> #[trigger] s[i] != '.',
    ensures
        last_dot(s) == k,
    decreases s.len(),
{
    if k < s.len() - 1 {
        assert(s[s.len() - 1] != '.');
        lemma_last_dot_at(s.drop_last(), k);
    }
}

} // verus!
