//! Sorting by a total order.

use vstd::prelude::*;

use crate::message::texts;
use crate::text::chars_of;

verus! {

/// Lexicographic order of character sequences by code point.
pub open spec fn text_le(a: Seq<char>, b: Seq<char>) -> bool
    decreases a.len(),
{
    if a.len() == 0 {
        true
    } else if b.len() == 0 {
        false
    } else if a[0] != b[0] {
        (a[0] as int) < (b[0] as int)
    } else {
        text_le(a.drop_first(), b.drop_first())
    }
}

pub proof fn lemma_text_le_total(a: Seq<char>, b: Seq<char>)
    ensures
        text_le(a, b) || text_le(b, a),
    decreases a.len(),
{
    if a.len() > 0 && b.len() > 0 && a[0] == b[0] {
        lemma_text_le_total(a.drop_first(), b.drop_first());
    }
}

pub proof fn lemma_text_le_transitive(a: Seq<char>, b: Seq<char>, c: Seq<char>)
    requires
        text_le(a, b),
        text_le(b, c),
    ensures
        text_le(a, c),
    decreases a.len(),
{
    if a.len() > 0 && b.len() > 0 && c.len() > 0 && a[0] == b[0] && b[0] == c[0] {
        lemma_text_le_transitive(a.drop_first(), b.drop_first(), c.drop_first());
    }
}

pub proof fn lemma_text_le_antisymmetric(a: Seq<char>, b: Seq<char>)
    requires
        text_le(a, b),
        text_le(b, a),
    ensures
        a == b,
    decreases a.len(),
{
    if a.len() > 0 && b.len() > 0 {
        lemma_text_le_antisymmetric(a.drop_first(), b.drop_first());
        assert(a =~= seq![a[0]] + a.drop_first());
        assert(b =~= seq![b[0]] + b.drop_first());
    } else {
        assert(a =~= b);
    }
}

/// Whether `a` comes before `b`, or equals it, in the order of strings.
pub fn text_leq(a: &str, b: &str) -> (r: bool)
    ensures
        r == text_le(a@, b@),
{
    let x = chars_of(a);
    let y = chars_of(b);
    let mut i: usize = 0;
    assert(x@.skip(0) =~= x@ && y@.skip(0) =~= y@);
    while i < x.len() && i < y.len() && x[i] == y[i]
        invariant
            x@ == a@,
            y@ == b@,
            i <= x@.len(),
            i <= y@.len(),
            text_le(a@, b@) == text_le(x@.skip(i as int), y@.skip(i as int)),
        decreases x.len() - i,
    {
        assert(x@.skip(i as int).drop_first() =~= x@.skip(i as int + 1));
        assert(y@.skip(i as int).drop_first() =~= y@.skip(i as int + 1));
        i += 1;
    }
    if i >= x.len() {
        true
    } else if i >= y.len() {
        false
    } else {
        code_less(x[i], y[i])
    }
}

fn code_less(a: char, b: char) -> (r: bool)
    ensures
        r == ((a as int) < (b as int)),
{
    (a as u32) < (b as u32)
}

/// A type with a total preorder.
pub trait Ranked: Sized {
    spec fn le(&self, other: &Self) -> bool;

    proof fn total(a: &Self, b: &Self)
        ensures
            a.le(b) || b.le(a),
    ;

    proof fn transitive(a: &Self, b: &Self, c: &Self)
        requires
            a.le(b),
            b.le(c),
        ensures
            a.le(c),
    ;

    fn leq(&self, other: &Self) -> (r: bool)
        ensures
            r == self.le(other),
    ;
}

/// Whether a sequence is in order.
pub open spec fn sorted<T: Ranked>(s: Seq<T>) -> bool {
    forall|i: int, j: int| #![trigger s[i], s[j]] 0 <= i < j < s.len() ==> s[i].le(&s[j])
}

/// Inserts an item into a list that is in order, behind the items it equals.
fn insert_sorted<T: Ranked>(v: &mut Vec<T>, item: T)
    requires
        sorted(old(v)@),
    ensures
        sorted(final(v)@),
        final(v)@.to_multiset() == old(v)@.to_multiset().insert(item),
        final(v)@.len() == old(v)@.len() + 1,
{
    let ghost s = v@;
    let mut i: usize = v.len();
    while i > 0 && !v[i - 1].leq(&item)
        invariant
            v@ == s,
            sorted(s),
            i <= s.len(),
            forall|j: int| i <= j < s.len() ==> !(#[trigger] s[j]).le(&item),
        decreases i,
    {
        i -= 1;
    }
    v.insert(i, item);
    proof {
        let k = i as int;
        assert forall|p: int, q: int|
            #![trigger v@[p], v@[q]]
            0 <= p < q < v@.len() implies v@[p].le(&v@[q]) by {
            let p0 = if p < k { p } else { p - 1 };
            let q0 = if q < k { q } else { q - 1 };
            if p != k && q != k {
                assert(v@[p] == s[p0] && v@[q] == s[q0]);
            } else if q == k {
                assert(v@[p] == s[p]);
                if p < k - 1 {
                    T::transitive(&s[p], &s[k - 1], &item);
                }
            } else {
                assert(v@[q] == s[q0]);
                T::total(&item, &s[q0]);
            }
        }
        vstd::seq_lib::to_multiset_insert(s, k, item);
        assert(v@ =~= s.insert(k, item));
    }
}

/// Puts a list in order.
pub fn sort<T: Ranked>(v: Vec<T>) -> (r: Vec<T>)
    ensures
        sorted(r@),
        r@.to_multiset() == v@.to_multiset(),
        r@.len() == v@.len(),
{
    let mut rest = v;
    let mut r: Vec<T> = Vec::new();
    let ghost all = rest@.to_multiset();
    proof {
        rest@.to_multiset_ensures();
        r@.to_multiset_ensures();
        assert(all =~= rest@.to_multiset().add(r@.to_multiset()));
    }
    while rest.len() > 0
        invariant
            sorted(r@),
            all == rest@.to_multiset().add(r@.to_multiset()),
            rest@.len() + r@.len() == v@.len(),
        decreases rest.len(),
    {
        let ghost before = rest@;
        let ghost r0 = r@;
        let item: T = rest.remove(0);
        proof {
            before.to_multiset_ensures();
            assert(rest@ =~= before.remove(0));
            assert(rest@.to_multiset() =~= before.to_multiset().remove(item));
        }
        insert_sorted(&mut r, item);
        assert(all =~= rest@.to_multiset().add(r@.to_multiset()));
    }
    proof {
        rest@.to_multiset_ensures();
        assert(rest@ =~= Seq::<T>::empty());
        assert(all =~= r@.to_multiset());
    }
    r
}

/// Two lists with the same multiset of items have the same members.
pub proof fn lemma_same_members<T>(a: Seq<T>, b: Seq<T>)
    requires
        a.to_multiset() == b.to_multiset(),
    ensures
        a.len() == b.len(),
        forall|x: T| a.contains(x) <==> b.contains(x),
{
    a.to_multiset_ensures();
    b.to_multiset_ensures();
    assert forall|x: T| a.contains(x) <==> b.contains(x) by {
        assert(a.contains(x) <==> a.to_multiset().count(x) > 0);
        assert(b.contains(x) <==> b.to_multiset().count(x) > 0);
    }
}

/// Of two lists with the same multiset of items, the images under a function have the same
/// members, and when those of one have none twice, neither have those of the other.
pub proof fn lemma_same_images<T, M>(a: Seq<T>, b: Seq<T>, f: spec_fn(T) -> M)
    requires
        a.to_multiset() == b.to_multiset(),
        a.map_values(f).no_duplicates(),
    ensures
        b.map_values(f).no_duplicates(),
        forall|m: M| #[trigger] a.map_values(f).contains(m) <==> b.map_values(f).contains(m),
        a.len() == b.len(),
{
    lemma_same_members(a, b);
    let x = a.map_values(f);
    let y = b.map_values(f);
    assert(a.no_duplicates()) by {
        assert forall|i: int, j: int| 0 <= i < a.len() && 0 <= j < a.len() && i != j implies a[i]
            != a[j] by {
            assert(x[i] != x[j]);
        }
    }
    a.lemma_multiset_has_no_duplicates();
    b.lemma_multiset_has_no_duplicates_conv();
    assert forall|i: int, j: int| 0 <= i < y.len() && 0 <= j < y.len() && i != j implies y[i]
        != y[j] by {
        assert(b[i] != b[j]);
        assert(b.contains(b[i]) && b.contains(b[j]));
        let p = choose|p: int| 0 <= p < a.len() && a[p] == b[i];
        let q = choose|q: int| 0 <= q < a.len() && a[q] == b[j];
        assert(x[p] != x[q]);
    }
    assert forall|m: M| #[trigger] x.contains(m) <==> y.contains(m) by {
        if x.contains(m) {
            let i = choose|i: int| 0 <= i < x.len() && x[i] == m;
            assert(a.contains(a[i]));
            let j = choose|j: int| 0 <= j < b.len() && b[j] == a[i];
            assert(y[j] == m);
        }
        if y.contains(m) {
            let i = choose|i: int| 0 <= i < y.len() && y[i] == m;
            assert(b.contains(b[i]));
            let j = choose|j: int| 0 <= j < a.len() && a[j] == b[i];
            assert(x[j] == m);
        }
    }
}

/// The members of a list with one more item.
pub proof fn lemma_push_contains<T>(s: Seq<T>, x: T, y: T)
    ensures
        s.push(x).contains(y) <==> s.contains(y) || x == y,
{
    if s.contains(y) {
        let i = choose|i: int| 0 <= i < s.len() && s[i] == y;
        assert(s.push(x)[i] == y);
    }
    if x == y {
        assert(s.push(x)[s.len() as int] == y);
    }
    if s.push(x).contains(y) && x != y {
        let i = choose|i: int| 0 <= i < s.push(x).len() && s.push(x)[i] == y;
        assert(s[i] == y);
    }
}

/// A text in a list that is put in order.
pub struct Text {
    pub text: String,
}

impl Ranked for Text {
    open spec fn le(&self, other: &Self) -> bool {
        text_le(self.text@, other.text@)
    }

    proof fn total(a: &Self, b: &Self) {
        lemma_text_le_total(a.text@, b.text@);
    }

    proof fn transitive(a: &Self, b: &Self, c: &Self) {
        lemma_text_le_transitive(a.text@, b.text@, c.text@);
    }

    fn leq(&self, other: &Self) -> (r: bool) {
        text_leq(self.text.as_str(), other.text.as_str())
    }
}

/// Puts different texts in order.
pub fn sorted_texts(v: Vec<Text>) -> (r: Vec<String>)
    requires
        v@.map_values(|x: Text| x.text@).no_duplicates(),
    ensures
        r@.len() == v@.len(),
        texts(r@).to_set() == v@.map_values(|x: Text| x.text@).to_set(),
        forall|i: int, j: int|
            #![trigger r@[i], r@[j]]
            0 <= i < j < r@.len() ==> text_le(r@[i]@, r@[j]@) && r@[i]@ != r@[j]@,
{
    let ghost before = v@;
    let mut s = sort(v);
    let ghost all = s@;
    let ghost f = |x: Text| x.text@;
    proof {
        assert(before.map_values(f) =~= before.map_values(|x: Text| x.text@));
        lemma_same_images(before, all, f);
    }
    let mut r: Vec<String> = Vec::new();
    let n: usize = s.len();
    let mut i: usize = 0;
    assert(all.skip(0) =~= all);
    while i < n
        invariant
            n == all.len(),
            i <= n,
            s@ == all.skip(i as int),
            r@.len() == i,
            forall|j: int| 0 <= j < i ==> #[trigger] r@[j] == all[j].text,
        decreases n - i,
    {
        let t = s.remove(0);
        r.push(t.text);
        assert(s@ =~= all.skip(i as int + 1));
        i += 1;
    }
    proof {
        assert(texts(r@) =~= all.map_values(f));
        assert forall|t: Seq<char>| texts(r@).to_set().contains(t) <==> before.map_values(
            f,
        ).to_set().contains(t) by {
            assert(before.map_values(f).contains(t) <==> all.map_values(f).contains(t));
        }
        assert(texts(r@).to_set() =~= before.map_values(f).to_set());
        assert forall|i: int, j: int|
            #![trigger r@[i], r@[j]]
            0 <= i < j < r@.len() implies text_le(r@[i]@, r@[j]@) && r@[i]@ != r@[j]@ by {
            assert(all[i].le(&all[j]));
            assert(all.map_values(f)[i] != all.map_values(f)[j]);
        }
    }
    r
}

/// Of two lists with the same multiset of items, one is the other in another order.
pub proof fn lemma_reordered<T>(a: Seq<T>, b: Seq<T>) -> (order: Seq<int>)
    requires
        a.to_multiset() == b.to_multiset(),
    ensures
        order.len() == b.len(),
        a.len() == b.len(),
        order.no_duplicates(),
        forall|i: int| 0 <= i < b.len() ==> 0 <= #[trigger] order[i] < a.len() && b[i] == a[order[i]],
    decreases b.len(),
{
    lemma_same_members(a, b);
    if b.len() == 0 {
        Seq::empty()
    } else {
        let x = b.last();
        let rest = b.drop_last();
        assert(b.contains(b[b.len() - 1]));
        assert(a.contains(x));
        let k = choose|k: int| 0 <= k < a.len() && a[k] == x;
        let a1 = a.remove(k);
        a.to_multiset_ensures();
        b.to_multiset_ensures();
        assert(rest =~= b.remove(b.len() - 1));
        assert(a1.to_multiset() =~= rest.to_multiset());
        let o = lemma_reordered(a1, rest);
        let order = o.map_values(
            |j: int|
                if j < k {
                    j
                } else {
                    j + 1
                },
        ).push(k);
        assert forall|i: int| 0 <= i < b.len() implies 0 <= #[trigger] order[i] < a.len() && b[i]
            == a[order[i]] by {
            if i < rest.len() {
                assert(0 <= o[i] < a1.len());
                assert(b[i] == rest[i]);
                assert(rest[i] == a1[o[i]]);
            }
        }
        assert forall|i: int, j: int|
            0 <= i < order.len() && 0 <= j < order.len() && i != j implies order[i] != order[j] by {
            if i < o.len() && j < o.len() {
                assert(o[i] != o[j]);
            }
        }
        order
    }
}

/// Whether `r` is `v` in order, with items of the same rank left in the order they had: `order` tells
/// the place that each item had.
pub open spec fn stably_sorted<T: Ranked>(v: Seq<T>, r: Seq<T>, order: Seq<int>) -> bool {
    &&& r.len() == v.len()
    &&& order.len() == r.len()
    &&& order.no_duplicates()
    &&& forall|i: int| 0 <= i < r.len() ==> 0 <= #[trigger] order[i] < v.len() && r[i] == v[order[i]]
    &&& forall|i: int, j: int|
        #![trigger r[i], r[j]]
        0 <= i < j < r.len() ==> r[i].le(&r[j]) && (r[j].le(&r[i]) ==> order[i] < order[j])
}

/// Puts a list in order; items of the same rank stay in the order they had.
pub fn sort_stable<T: Ranked>(v: Vec<T>) -> (r: Vec<T>)
    ensures
        exists|order: Seq<int>| #[trigger] stably_sorted(v@, r@, order),
{
    let ghost all = v@;
    let mut rest = v;
    let mut r: Vec<T> = Vec::new();
    let ghost mut order: Seq<int> = Seq::empty();
    assert(all.skip(0) =~= all);
    assert(all.take(0) =~= Seq::<T>::empty());
    while rest.len() > 0
        invariant
            r@.len() <= all.len(),
            rest@ == all.skip(r@.len() as int),
            stably_sorted(all.take(r@.len() as int), r@, order),
        decreases rest.len(),
    {
        let ghost s = r@;
        let ghost n = r@.len() as int;
        let ghost seen = all.take(n);
        let item: T = rest.remove(0);
        assert(item == all[n]);
        assert(rest@ =~= all.skip(n + 1));
        let mut i: usize = r.len();
        while i > 0 && !r[i - 1].leq(&item)
            invariant
                r@ == s,
                stably_sorted(seen, s, order),
                i <= s.len(),
                forall|j: int| i <= j < s.len() ==> !(#[trigger] s[j]).le(&item),
            decreases i,
        {
            i -= 1;
        }
        r.insert(i, item);
        proof {
            let k = i as int;
            let next = all.take(n + 1);
            let o1 = order.insert(k, n);
            assert(r@ =~= s.insert(k, item));
            assert forall|p: int| 0 <= p < r@.len() implies 0 <= #[trigger] o1[p] < next.len()
                && r@[p] == next[o1[p]] by {
                if p < k {
                    assert(o1[p] == order[p]);
                    assert(r@[p] == s[p]);
                } else if p > k {
                    assert(o1[p] == order[p - 1]);
                    assert(r@[p] == s[p - 1]);
                }
            }
            assert forall|p: int, q: int|
                0 <= p < o1.len() && 0 <= q < o1.len() && p != q implies o1[p] != o1[q] by {
                let p0 = if p < k { p } else { p - 1 };
                let q0 = if q < k { q } else { q - 1 };
                if p != k {
                    assert(o1[p] == order[p0]);
                }
                if q != k {
                    assert(o1[q] == order[q0]);
                }
            }
            assert forall|p: int, q: int|
                #![trigger r@[p], r@[q]]
                0 <= p < q < r@.len() implies r@[p].le(&r@[q]) && (r@[q].le(&r@[p]) ==> o1[p]
                < o1[q]) by {
                let p0 = if p < k { p } else { p - 1 };
                let q0 = if q < k { q } else { q - 1 };
                if p != k && q != k {
                    assert(r@[p] == s[p0] && r@[q] == s[q0]);
                    assert(o1[p] == order[p0] && o1[q] == order[q0]);
                } else if q == k {
                    assert(r@[p] == s[p]);
                    assert(o1[p] == order[p]);
                    if p < k - 1 {
                        assert(s[p].le(&s[k - 1]));
                        T::transitive(&s[p], &s[k - 1], &item);
                    }
                } else {
                    assert(r@[q] == s[q0]);
                    T::total(&item, &s[q0]);
                }
            }
            order = o1;
            assert(stably_sorted(next, r@, o1));
        }
    }
    assert(all.take(all.len() as int) =~= all);
    r
}

/// Texts are ordered by the first character in which they differ, by its number; a text that another
/// one begins with comes before it, and each is in order with itself.
pub proof fn law_first_difference_decides(a: &str, b: &str, n: int, r: bool)
    requires
        call_ensures(text_leq, (a, b), r),
        0 <= n <= a@.len(),
        n <= b@.len(),
        forall|i: int| 0 <= i < n ==> a@[i] == #[trigger] b@[i],
    ensures
        n == a@.len() ==> r,
        n == b@.len() && n < a@.len() ==> !r,
        n < a@.len() && n < b@.len() && a@[n] != b@[n] ==> r == ((a@[n] as int) < (b@[n] as int)),
{
    lemma_text_le_at(a@, b@, n);
}

proof fn lemma_text_le_at(a: Seq<char>, b: Seq<char>, n: int)
    requires
        0 <= n <= a.len(),
        n <= b.len(),
        forall|i: int| 0 <= i < n ==> a[i] == #[trigger] b[i],
    ensures
        n == a.len() ==> text_le(a, b),
        n == b.len() && n < a.len() ==> !text_le(a, b),
        n < a.len() && n < b.len() && a[n] != b[n] ==> text_le(a, b) == ((a[n] as int) < (
        b[n] as int)),
    decreases n,
{
    if n > 0 {
        assert(a[0] == b[0]);
        assert forall|i: int| 0 <= i < n - 1 implies a.drop_first()[i]
            == #[trigger] b.drop_first()[i] by {
            assert(a[i + 1] == b[i + 1]);
        }
        lemma_text_le_at(a.drop_first(), b.drop_first(), n - 1);
    }
}

/// Sorting keeps every item, and puts each two in order; items of the same rank keep theirs.
pub proof fn law_sorting_keeps_every_item<T: Ranked>(v: Vec<T>, r: Vec<T>, k: int) -> (p: int)
    requires
        call_ensures(sort_stable::<T>, (v,), r),
        0 <= k < v@.len(),
    ensures
        r@.len() == v@.len(),
        0 <= p < r@.len(),
        r@[p] == v@[k],
        forall|i: int, j: int|
            #![trigger r@[i], r@[j]]
            0 <= i < j < r@.len() ==> r@[i].le(&r@[j]),
{
    let order = choose|order: Seq<int>| #[trigger] stably_sorted(v@, r@, order);
    lemma_reached(order, k)
}

/// A list of as many different places as there are names every one of them.
pub proof fn lemma_reached(order: Seq<int>, k: int) -> (p: int)
    requires
        order.no_duplicates(),
        forall|i: int| 0 <= i < order.len() ==> 0 <= #[trigger] order[i] < order.len(),
        0 <= k < order.len(),
    ensures
        0 <= p < order.len(),
        order[p] == k,
{
    let n = order.len() as int;
    let all = Set::new(|x: int| 0 <= x < n);
    order.unique_seq_to_set();
    assert(order.to_set().subset_of(all)) by {
        assert forall|x: int| order.to_set().contains(x) implies all.contains(x) by {
            let i = choose|i: int| 0 <= i < order.len() && order[i] == x;
            assert(0 <= order[i] < n);
        }
    }
    vstd::set_lib::lemma_int_range(0, n);
    assert(all =~= vstd::set_lib::set_int_range(0, n));
    vstd::set_lib::lemma_subset_equality(order.to_set(), all);
    assert(order.to_set().contains(k));
    choose|p: int| 0 <= p < order.len() && order[p] == k
}

/// A list of as many different items as a set has, all of the set, holds every item of the set.
pub proof fn lemma_all_listed<M>(ids: Seq<M>, all: Set<M>, x: M) -> (i: int)
    requires
        ids.no_duplicates(),
        all.finite(),
        ids.len() == all.len(),
        forall|j: int| 0 <= j < ids.len() ==> all.contains(#[trigger] ids[j]),
        all.contains(x),
    ensures
        0 <= i < ids.len(),
        ids[i] == x,
{
    ids.unique_seq_to_set();
    assert(ids.to_set().subset_of(all)) by {
        assert forall|y: M| ids.to_set().contains(y) implies all.contains(y) by {
            let a = choose|a: int| 0 <= a < ids.len() && ids[a] == y;
            assert(all.contains(ids[a]));
        }
    }
    vstd::set_lib::lemma_subset_equality(ids.to_set(), all);
    assert(ids.to_set().contains(x));
    choose|i: int| 0 <= i < ids.len() && ids[i] == x
}

/// A sorted list holds what the list held before, and nothing in it stands before what it belongs
/// behind.
pub proof fn law_sorted_list_is_in_order<T: Ranked>(v: Vec<T>, r: Vec<T>, i: int, j: int)
    requires
        call_ensures(sort::<T>, (v,), r),
        0 <= i < j < r@.len(),
    ensures
        r@[i].le(&r@[j]),
        r@.len() == v@.len(),
        v@.to_multiset() == r@.to_multiset(),
{
}

} // verus!
