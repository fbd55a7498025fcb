//! Text helpers over character sequences: equality, joining, numerals and trimming.

use vstd::prelude::*;
use vstd::string::*;

verus! {

/// Trusted: calls `String::push` of the standard library, which appends one character to the end.
#[verifier::external_body]
pub(crate) fn push_char(s: &mut String, c: char)
    ensures
        final(s)@ == old(s)@.push(c),
{
    s.push(c)
}

/// Whether two strings hold the same characters.
pub fn same(a: &str, b: &str) -> (r: bool)
    ensures
        r == (a@ == b@),
{
    a.to_owned() == b.to_owned()
}

/// Whether a string holds no character.
pub fn is_empty_text(s: &str) -> (r: bool)
    ensures
        r == (s@.len() == 0),
{
    s.unicode_len() == 0
}

/// Two strings joined.
pub fn join2(a: &str, b: &str) -> (r: String)
    ensures
        r@ == a@ + b@,
{
    let mut r = a.to_owned();
    r.append(b);
    r
}

/// Three strings joined.
pub fn join3(a: &str, b: &str, c: &str) -> (r: String)
    ensures
        r@ == a@ + b@ + c@,
{
    let mut r = a.to_owned();
    r.append(b);
    r.append(c);
    r
}

/// The texts of a list, one after the other, with `sep` between them.
pub open spec fn joined(v: Seq<Seq<char>>, sep: Seq<char>) -> Seq<char>
    decreases v.len(),
{
    if v.len() == 0 {
        Seq::empty()
    } else if v.len() == 1 {
        v[0]
    } else {
        joined(v.drop_last(), sep) + sep + v.last()
    }
}

/// The texts of a list, one after the other, with `sep` between them.
pub fn join_all(v: &Vec<String>, sep: &str) -> (r: String)
    ensures
        r@ == joined(v@.map_values(|s: String| s@), sep@),
{
    let ghost models = v@.map_values(|s: String| s@);
    if v.len() == 0 {
        let r: String = "".to_owned();
        proof {
            reveal_strlit("");
            assert(r@ =~= joined(models, sep@));
        }
        return r;
    }
    let mut r: String = v[0].clone();
    let mut i: usize = 1;
    assert(models.take(1).len() == 1);
    while i < v.len()
        invariant
            models == v@.map_values(|s: String| s@),
            1 <= i <= v@.len(),
            r@ == joined(models.take(i as int), sep@),
        decreases v.len() - i,
    {
        r = join3(r.as_str(), sep, v[i].as_str());
        proof {
            let next = models.take(i as int + 1);
            assert(next.drop_last() =~= models.take(i as int));
            assert(next.last() == v@[i as int]@);
        }
        i += 1;
    }
    assert(models.take(v@.len() as int) =~= models);
    r
}

/// The character of a digit below sixteen, lower case.
pub open spec fn digit_char(d: nat) -> char {
    if d < 10 {
        (48 + d) as char
    } else {
        (87 + d) as char
    }
}

/// The numeral of `n` in base `base`, without leading zeros (`0` for zero).
pub open spec fn numeral(n: nat, base: nat) -> Seq<char>
    decreases n,
{
    if base < 2 || n < base {
        seq![digit_char(n)]
    } else {
        proof {
            assert(n / base < n) by (nonlinear_arith)
                requires
                    n >= base,
                    base >= 2,
            ;
        }
        numeral(n / base, base).push(digit_char(n % base))
    }
}

/// The decimal numeral of `n`.
pub open spec fn dec(n: nat) -> Seq<char> {
    numeral(n, 10)
}

/// The lower-case hexadecimal numeral of `n`.
pub open spec fn hex(n: nat) -> Seq<char> {
    numeral(n, 16)
}

/// `s` with zeros in front up to the width `w`; unchanged when it is that long already.
pub open spec fn zero_padded(s: Seq<char>, w: nat) -> Seq<char> {
    if s.len() >= w {
        s
    } else {
        Seq::new((w - s.len()) as nat, |i: int| '0') + s
    }
}

fn digit(d: u8) -> (c: char)
    requires
        d < 16,
    ensures
        c == digit_char(d as nat),
{
    if d < 10 {
        (48 + d) as char
    } else {
        (87 + d) as char
    }
}

fn push_numeral(out: &mut String, n: u64, base: u64)
    requires
        2 <= base <= 16,
    ensures
        final(out)@ == old(out)@ + numeral(n as nat, base as nat),
    decreases n,
{
    if n < base {
        push_char(out, digit(n as u8));
    } else {
        proof {
            assert(n / base < n) by (nonlinear_arith)
                requires
                    n >= base,
                    base >= 2,
            ;
            assert((n / base) as nat == (n as nat) / (base as nat));
            assert((n % base) as nat == (n as nat) % (base as nat));
            assert(n % base < base) by (nonlinear_arith)
                requires
                    base >= 2,
            ;
        }
        push_numeral(out, n / base, base);
        push_char(out, digit((n % base) as u8));
    }
    assert(out@ == old(out)@ + numeral(n as nat, base as nat));
}

/// Different numbers have different numerals.
pub proof fn lemma_numeral_injective(n: nat, m: nat, base: nat)
    requires
        2 <= base <= 16,
        numeral(n, base) == numeral(m, base),
    ensures
        n == m,
    decreases n,
{
    let a = numeral(n, base);
    let b = numeral(m, base);
    assert(a.len() > 0 && b.len() > 0);
    assert(a.last() == b.last());
    assert(n % base < base && m % base < base) by (nonlinear_arith)
        requires
            base >= 2,
    ;
    if n < base {
        assert(a.len() == 1);
        if m >= base {
            assert(numeral(m / base, base).len() > 0);
        }
    } else {
        if m < base {
            assert(b.len() == 1);
            assert(numeral(n / base, base).len() > 0);
        } else {
            assert(a.drop_last() =~= numeral(n / base, base));
            assert(b.drop_last() =~= numeral(m / base, base));
            assert(n / base < n) by (nonlinear_arith)
                requires
                    n >= base,
                    base >= 2,
            ;
            lemma_numeral_injective(n / base, m / base, base);
            assert(n % base == m % base);
            assert(n == base * (n / base) + n % base) by (nonlinear_arith)
                requires
                    base >= 2,
            ;
            assert(m == base * (m / base) + m % base) by (nonlinear_arith)
                requires
                    base >= 2,
            ;
        }
    }
}

/// The decimal numeral of `n`.
pub fn decimal(n: u64) -> (r: String)
    ensures
        r@ == dec(n as nat),
{
    let mut r = String::new();
    push_numeral(&mut r, n, 10);
    assert(r@ == dec(n as nat));
    r
}

/// The lower-case hexadecimal numeral of `n`.
pub fn hexadecimal(n: u64) -> (r: String)
    ensures
        r@ == hex(n as nat),
{
    let mut r = String::new();
    push_numeral(&mut r, n, 16);
    assert(r@ == hex(n as nat));
    r
}

/// `s` with zeros in front up to the width `w`.
pub fn pad_zeros(s: &str, w: usize) -> (r: String)
    ensures
        r@ == zero_padded(s@, w as nat),
{
    let n: usize = s.unicode_len();
    if n >= w {
        return s.to_owned();
    }
    let mut r = String::new();
    let mut i: usize = 0;
    while i < w - n
        invariant
            n == s@.len(),
            n < w,
            i <= w - n,
            r@ == Seq::new(i as nat, |k: int| '0'),
        decreases w - n - i,
    {
        push_char(&mut r, '0');
        i += 1;
        assert(r@ == Seq::new(i as nat, |k: int| '0'));
    }
    r.append(s);
    r
}

/// The characters of a string.
pub fn chars_of(s: &str) -> (r: Vec<char>)
    ensures
        r@ == s@,
{
    let mut r: Vec<char> = Vec::new();
    for c in it: s.chars()
        invariant
            it.seq() == s@,
            r@ == s@.take(it.index() as int),
    {
        r.push(c);
        assert(r@ =~= s@.take(it.index() as int + 1));
    }
    assert(s@.take(s@.len() as int) =~= s@);
    r
}

/// The string made of the characters from `from` up to, not including, `to`.
pub fn string_of(v: &Vec<char>, from: usize, to: usize) -> (r: String)
    requires
        from <= to <= v@.len(),
    ensures
        r@ == v@.subrange(from as int, to as int),
{
    let mut r = String::new();
    let mut i: usize = from;
    while i < to
        invariant
            from <= i <= to <= v@.len(),
            r@ == v@.subrange(from as int, i as int),
        decreases to - i,
    {
        push_char(&mut r, v[i]);
        i += 1;
        assert(r@ =~= v@.subrange(from as int, i as int));
    }
    r
}

/// Whether `s` begins with `p`.
pub open spec fn begins_with(s: Seq<char>, p: Seq<char>) -> bool {
    p.len() <= s.len() && s.subrange(0, p.len() as int) == p
}

/// Whether `s` begins with `p`.
pub fn starts_with(s: &str, p: &str) -> (r: bool)
    ensures
        r == begins_with(s@, p@),
{
    let a = chars_of(s);
    let b = chars_of(p);
    if b.len() > a.len() {
        return false;
    }
    let mut i: usize = 0;
    while i < b.len()
        invariant
            a@ == s@,
            b@ == p@,
            b.len() <= a.len(),
            i <= b.len(),
            forall|j: int| 0 <= j < i ==> a@[j] == b@[j],
        decreases b.len() - i,
    {
        if a[i] != b[i] {
            proof {
                assert(s@.subrange(0, p@.len() as int)[i as int] != p@[i as int]);
            }
            return false;
        }
        i += 1;
    }
    assert(s@.subrange(0, p@.len() as int) =~= p@);
    true
}

/// `s` without its first `n` characters.
pub fn skip_chars(s: &str, n: usize) -> (r: String)
    requires
        n <= s@.len(),
    ensures
        r@ == s@.skip(n as int),
{
    let v = chars_of(s);
    let len: usize = v.len();
    string_of(&v, n, len)
}

/// The first `n` characters of `s`, or all of it when it is shorter.
pub open spec fn taken(s: Seq<char>, n: nat) -> Seq<char> {
    if s.len() <= n {
        s
    } else {
        s.take(n as int)
    }
}

/// The first `n` characters of `s`, or all of it when it is shorter.
pub fn take_chars(s: &str, n: usize) -> (r: String)
    ensures
        r@ == taken(s@, n as nat),
{
    let v = chars_of(s);
    let len: usize = v.len();
    if len <= n {
        assert(s@.subrange(0, len as int) =~= s@);
        string_of(&v, 0, len)
    } else {
        string_of(&v, 0, n)
    }
}

/// Characters with the Unicode property `White_Space`.
pub open spec fn is_space(c: char) -> bool {
    let n = c as u32;
    ||| 9 <= n <= 13
    ||| n == 0x20
    ||| n == 0x85
    ||| n == 0xA0
    ||| n == 0x1680
    ||| 0x2000 <= n <= 0x200A
    ||| n == 0x2028
    ||| n == 0x2029
    ||| n == 0x202F
    ||| n == 0x205F
    ||| n == 0x3000
}

pub fn is_whitespace(c: char) -> (r: bool)
    ensures
        r == is_space(c),
{
    let n: u32 = c as u32;
    (9 <= n && n <= 13) || n == 0x20 || n == 0x85 || n == 0xA0 || n == 0x1680 || (0x2000 <= n && n
        <= 0x200A) || n == 0x2028 || n == 0x2029 || n == 0x202F || n == 0x205F || n == 0x3000
}

/// Control characters: the Unicode category `Cc`.
pub open spec fn is_control(c: char) -> bool {
    let n = c as u32;
    n < 0x20 || 0x7F <= n <= 0x9F
}

pub fn is_control_char(c: char) -> (r: bool)
    ensures
        r == is_control(c),
{
    let n: u32 = c as u32;
    n < 0x20 || (0x7F <= n && n <= 0x9F)
}

/// `s` without the characters at its end for which `drop` holds.
pub open spec fn trimmed_end(s: Seq<char>, drop: spec_fn(char) -> bool) -> Seq<char>
    decreases s.len(),
{
    if s.len() > 0 && drop(s.last()) {
        trimmed_end(s.drop_last(), drop)
    } else {
        s
    }
}

/// `s` without the characters at its start for which `drop` holds.
pub open spec fn trimmed_start(s: Seq<char>, drop: spec_fn(char) -> bool) -> Seq<char>
    decreases s.len(),
{
    if s.len() > 0 && drop(s[0]) {
        trimmed_start(s.drop_first(), drop)
    } else {
        s
    }
}

/// `s` without the characters at both ends for which `drop` holds.
pub open spec fn trimmed(s: Seq<char>, drop: spec_fn(char) -> bool) -> Seq<char> {
    trimmed_end(trimmed_start(s, drop), drop)
}

/// `s` without the white space at both ends.
pub open spec fn trimmed_space(s: Seq<char>) -> Seq<char> {
    trimmed(s, |c: char| is_space(c))
}

/// `s` without the full stops at both ends.
pub open spec fn trimmed_dots(s: Seq<char>) -> Seq<char> {
    trimmed(s, |c: char| c == '.')
}

/// What trimming keeps: characters of `s` only, none to be dropped at either end.
pub proof fn lemma_trimmed(s: Seq<char>, drop: spec_fn(char) -> bool)
    ensures
        trimmed(s, drop).len() <= s.len(),
        forall|i: int|
            0 <= i < trimmed(s, drop).len() ==> s.contains(#[trigger] trimmed(s, drop)[i]),
        trimmed(s, drop).len() > 0 ==> !drop(trimmed(s, drop)[0]) && !drop(
            trimmed(s, drop).last(),
        ),
{
    let t = trimmed_start(s, drop);
    lemma_trimmed_start(s, drop);
    lemma_trimmed_end(t, drop);
}

proof fn lemma_trimmed_start(s: Seq<char>, drop: spec_fn(char) -> bool)
    ensures
        trimmed_start(s, drop).len() <= s.len(),
        trimmed_start(s, drop) == s.skip(s.len() - trimmed_start(s, drop).len()),
        forall|i: int|
            0 <= i < trimmed_start(s, drop).len() ==> s.contains(
                #[trigger] trimmed_start(s, drop)[i],
            ),
        trimmed_start(s, drop).len() > 0 ==> !drop(trimmed_start(s, drop)[0]),
    decreases s.len(),
{
    if s.len() > 0 && drop(s[0]) {
        let r = s.drop_first();
        lemma_trimmed_start(r, drop);
        let t = trimmed_start(r, drop);
        assert forall|i: int| 0 <= i < t.len() implies s.contains(#[trigger] t[i]) by {
            let j = choose|j: int| 0 <= j < r.len() && r[j] == t[i];
            assert(s[j + 1] == t[i]);
        }
        assert(t =~= s.skip(s.len() - t.len()));
    } else {
        assert(s =~= s.skip(0));
    }
}

proof fn lemma_trimmed_end(s: Seq<char>, drop: spec_fn(char) -> bool)
    ensures
        trimmed_end(s, drop).len() <= s.len(),
        trimmed_end(s, drop) == s.take(trimmed_end(s, drop).len() as int),
        forall|i: int|
            0 <= i < trimmed_end(s, drop).len() ==> s.contains(#[trigger] trimmed_end(s, drop)[i]),
        trimmed_end(s, drop).len() > 0 ==> !drop(trimmed_end(s, drop).last()),
        trimmed_end(s, drop).len() > 0 ==> trimmed_end(s, drop)[0] == s[0],
    decreases s.len(),
{
    if s.len() > 0 && drop(s.last()) {
        let r = s.drop_last();
        lemma_trimmed_end(r, drop);
        let t = trimmed_end(r, drop);
        assert forall|i: int| 0 <= i < t.len() implies s.contains(#[trigger] t[i]) by {
            let j = choose|j: int| 0 <= j < r.len() && r[j] == t[i];
            assert(s[j] == t[i]);
        }
        assert(t =~= s.take(t.len() as int));
    } else {
        assert(s =~= s.take(s.len() as int));
    }
}

fn in_class(c: char, dots: bool) -> (r: bool)
    ensures
        r == (if dots {
            c == '.'
        } else {
            is_space(c)
        }),
{
    if dots {
        c == '.'
    } else {
        is_whitespace(c)
    }
}

/// Removes white space (`dots == false`) or full stops (`dots == true`) at both ends.
fn trim_class(v: &Vec<char>, dots: bool) -> (r: Vec<char>)
    ensures
        dots ==> r@ == trimmed_dots(v@),
        !dots ==> r@ == trimmed_space(v@),
{
    let ghost drop: spec_fn(char) -> bool = if dots {
        |c: char| c == '.'
    } else {
        |c: char| is_space(c)
    };
    let mut a: usize = 0;
    let mut b: usize = v.len();
    assert(v@.skip(0) =~= v@);
    while a < b && in_class(v[a], dots)
        invariant
            a <= b == v@.len(),
            forall|c: char| #[trigger] drop(c) == (if dots {
                c == '.'
            } else {
                is_space(c)
            }),
            trimmed_start(v@.skip(a as int), drop) == trimmed_start(v@, drop),
        decreases b - a,
    {
        proof {
            let t = v@.skip(a as int);
            assert(drop(t[0]));
            assert(t.drop_first() =~= v@.skip(a as int + 1));
        }
        a += 1;
    }
    proof {
        let t = v@.skip(a as int);
        if t.len() > 0 {
            assert(t[0] == v@[a as int]);
            assert(!drop(t[0]));
        }
        assert(trimmed_start(v@, drop) == t);
        assert(t =~= v@.subrange(a as int, b as int));
    }
    while a < b && in_class(v[b - 1], dots)
        invariant
            a <= b <= v@.len(),
            forall|c: char| #[trigger] drop(c) == (if dots {
                c == '.'
            } else {
                is_space(c)
            }),
            trimmed_end(v@.subrange(a as int, b as int), drop) == trimmed(v@, drop),
        decreases b,
    {
        proof {
            let t = v@.subrange(a as int, b as int);
            assert(drop(t.last()));
            assert(t.drop_last() =~= v@.subrange(a as int, b as int - 1));
        }
        b -= 1;
    }
    proof {
        let t = v@.subrange(a as int, b as int);
        if t.len() > 0 {
            assert(!drop(t.last()));
        }
    }
    let mut r: Vec<char> = Vec::new();
    let mut i: usize = a;
    while i < b
        invariant
            a <= i <= b <= v@.len(),
            r@ == v@.subrange(a as int, i as int),
        decreases b - i,
    {
        r.push(v[i]);
        i += 1;
        assert(r@ =~= v@.subrange(a as int, i as int));
    }
    r
}

/// Removes white space at both ends.
pub fn trim_space(v: &Vec<char>) -> (r: Vec<char>)
    ensures
        r@ == trimmed_space(v@),
{
    trim_class(v, false)
}

/// Removes full stops at both ends.
pub fn trim_dots(v: &Vec<char>) -> (r: Vec<char>)
    ensures
        r@ == trimmed_dots(v@),
{
    trim_class(v, true)
}

/// Whether a character is a decimal digit.
pub open spec fn is_digit(c: char) -> bool {
    '0' <= c && c <= '9'
}

/// The value of a text of decimal digits.
pub open spec fn digits_value(s: Seq<char>) -> nat
    decreases s.len(),
{
    if s.len() == 0 {
        0
    } else {
        (digits_value(s.drop_last()) * 10 + (s.last() as int - 48)) as nat
    }
}

/// The number that a text of decimal digits stands for, if there is at least one digit, nothing
/// else, and the number is not above `max`.
pub open spec fn parsed_dec(s: Seq<char>, max: nat) -> Option<nat> {
    if s.len() > 0 && (forall|i: int| 0 <= i < s.len() ==> is_digit(#[trigger] s[i])) && digits_value(
        s,
    ) <= max {
        Some(digits_value(s))
    } else {
        None
    }
}

proof fn lemma_digits_grow(s: Seq<char>, n: int)
    requires
        0 <= n <= s.len(),
        forall|i: int| 0 <= i < s.len() ==> is_digit(#[trigger] s[i]),
    ensures
        digits_value(s.take(n)) <= digits_value(s),
    decreases s.len(),
{
    if n < s.len() {
        let p = s.drop_last();
        assert forall|i: int| 0 <= i < p.len() implies is_digit(#[trigger] p[i]) by {
            assert(p[i] == s[i]);
        }
        lemma_digits_grow(p, n);
        assert(p.take(n) =~= s.take(n));
        assert(is_digit(s[s.len() - 1]));
    } else {
        assert(s.take(n) =~= s);
    }
}

fn digit_of(c: char) -> (r: Option<u64>)
    ensures
        match r {
            Some(d) => is_digit(c) && d == c as int - 48 && d <= 9,
            None => !is_digit(c),
        },
{
    let n: u32 = c as u32;
    if 48 <= n && n <= 57 {
        Some((n - 48) as u64)
    } else {
        None
    }
}

/// The number that a text of decimal digits stands for, if it is one that is not above `max`.
pub fn parse_dec(s: &str, max: u64) -> (r: Option<u64>)
    requires
        max <= 0x1_0000_0000_0000,
    ensures
        match r {
            Some(n) => parsed_dec(s@, max as nat) == Some(n as nat),
            None => parsed_dec(s@, max as nat) is None,
        },
{
    let v = chars_of(s);
    if v.len() == 0 {
        return None;
    }
    let mut n: u64 = 0;
    let mut i: usize = 0;
    assert(v@.take(0) =~= Seq::<char>::empty());
    while i < v.len()
        invariant
            v@ == s@,
            v@.len() > 0,
            max <= 0x1_0000_0000_0000,
            i <= v@.len(),
            forall|j: int| 0 <= j < i ==> is_digit(#[trigger] v@[j]),
            n == digits_value(v@.take(i as int)),
            n <= max,
        decreases v.len() - i,
    {
        match digit_of(v[i]) {
            None => {
                assert(!is_digit(s@[i as int]));
                return None;
            },
            Some(d) => {
                proof {
                    let next = v@.take(i as int + 1);
                    assert(next.drop_last() =~= v@.take(i as int));
                    assert(next.last() == v@[i as int]);
                }
                n = n * 10 + d;
                i += 1;
                if n > max {
                    proof {
                        if forall|j: int| 0 <= j < s@.len() ==> is_digit(#[trigger] s@[j]) {
                            lemma_digits_grow(s@, i as int);
                        }
                    }
                    return None;
                }
            },
        }
    }
    assert(v@.take(v@.len() as int) =~= v@);
    Some(n)
}

/// A numeral is read back as the number it was written for.
pub proof fn lemma_parse_dec(n: nat, max: nat)
    requires
        n <= max,
    ensures
        parsed_dec(dec(n), max) == Some(n),
    decreases n,
{
    let s = dec(n);
    if n < 10 {
        assert(s =~= seq![digit_char(n)]);
        assert(s.drop_last() =~= Seq::<char>::empty());
        assert(digits_value(s.drop_last()) == 0);
        assert(digits_value(s) == n);
    } else {
        lemma_parse_dec(n / 10, max);
        let p = dec(n / 10);
        assert(s.drop_last() =~= p);
        assert forall|i: int| 0 <= i < s.len() implies is_digit(#[trigger] s[i]) by {
            if i < p.len() {
                assert(s[i] == p[i]);
            }
        }
        assert(digits_value(s) == n);
    }
}

/// The number that a text stands for: decimal digits, maybe with a plus sign in front.
pub open spec fn parsed_number(s: Seq<char>, max: nat) -> Option<nat> {
    if s.len() > 0 && s[0] == '+' {
        parsed_dec(s.skip(1), max)
    } else {
        parsed_dec(s, max)
    }
}

/// The number that a text stands for, if it is one that is not above `max`.
pub fn parse_number(s: &str, max: u64) -> (r: Option<u64>)
    requires
        max <= 0x1_0000_0000_0000,
    ensures
        match r {
            Some(n) => parsed_number(s@, max as nat) == Some(n as nat),
            None => parsed_number(s@, max as nat) is None,
        },
{
    let v = chars_of(s);
    if v.len() > 0 && v[0] == '+' {
        let rest: String = skip_chars(s, 1);
        parse_dec(rest.as_str(), max)
    } else {
        parse_dec(s, max)
    }
}

/// A numeral is read back as the number it was written for.
pub proof fn lemma_parse_number(n: nat, max: nat)
    requires
        n <= max,
    ensures
        parsed_number(dec(n), max) == Some(n),
{
    lemma_parse_dec(n, max);
    assert(is_digit(dec(n)[0]));
}

/// The place of the first `c` in a text; its length when there is none.
pub open spec fn first_place(s: Seq<char>, c: char) -> int
    decreases s.len(),
{
    if s.len() == 0 || s[0] == c {
        0
    } else {
        1 + first_place(s.skip(1), c)
    }
}

/// What the first place of a character is: the character stands there, and nowhere before.
pub proof fn lemma_first_place(s: Seq<char>, c: char)
    ensures
        0 <= first_place(s, c) <= s.len(),
        first_place(s, c) < s.len() ==> s[first_place(s, c)] == c,
        forall|i: int| 0 <= i < first_place(s, c) ==> s[i] != c,
    decreases s.len(),
{
    if s.len() > 0 && s[0] != c {
        let t = s.skip(1);
        lemma_first_place(t, c);
        assert forall|i: int| 0 <= i < first_place(s, c) implies s[i] != c by {
            if i > 0 {
                assert(t[i - 1] == s[i]);
            }
        }
    }
}

/// The first place is the only one with these properties.
pub proof fn lemma_first_place_is(s: Seq<char>, c: char, k: int)
    requires
        0 <= k <= s.len(),
        k < s.len() ==> s[k] == c,
        forall|i: int| 0 <= i < k ==> s[i] != c,
    ensures
        first_place(s, c) == k,
{
    lemma_first_place(s, c);
}

/// The place of the first `c` in a list of characters; its length when there is none.
pub fn find_first(v: &Vec<char>, c: char) -> (r: usize)
    ensures
        r == first_place(v@, c),
        r <= v@.len(),
{
    let mut i: usize = 0;
    while i < v.len() && v[i] != c
        invariant
            i <= v@.len(),
            forall|j: int| 0 <= j < i ==> v@[j] != c,
        decreases v.len() - i,
    {
        i += 1;
    }
    proof {
        lemma_first_place_is(v@, c, i as int);
    }
    i
}

/// A decimal numeral ends with the last digit of its number, and what stands before it is the
/// numeral of the rest; a number below ten has one digit.
pub proof fn law_decimal_is_written_digit_by_digit(n: u64, r: String, rest: String)
    requires
        call_ensures(decimal, (n,), r),
        call_ensures(decimal, ((n / 10) as u64,), rest),
    ensures
        r@.len() > 0,
        r@.last() as int == '0' as int + n % 10,
        n < 10 ==> r@.len() == 1,
        n >= 10 ==> r@.drop_last() == rest@,
{
    if n >= 10 {
        assert(r@.drop_last() =~= rest@);
    }
}

/// A hexadecimal numeral ends with the last digit of its number, in lower case, and what stands
/// before it is the numeral of the rest; a number below sixteen has one digit.
pub proof fn law_hexadecimal_is_written_digit_by_digit(n: u64, r: String, rest: String)
    requires
        call_ensures(hexadecimal, (n,), r),
        call_ensures(hexadecimal, ((n / 16) as u64,), rest),
    ensures
        r@.len() > 0,
        n % 16 < 10 ==> r@.last() as int == '0' as int + n % 16,
        n % 16 >= 10 ==> r@.last() as int == 'a' as int + (n % 16 - 10),
        n < 16 ==> r@.len() == 1,
        n >= 16 ==> r@.drop_last() == rest@,
{
    if n >= 16 {
        assert(r@.drop_last() =~= rest@);
    }
}

/// A number that was written is read back, with a plus sign in front of it too, unless it is above
/// the limit.
pub proof fn law_written_number_is_read_back(
    n: u64,
    max: u64,
    text: String,
    s: &str,
    plus: &str,
    dec_read: Option<u64>,
    read: Option<u64>,
    plus_read: Option<u64>,
)
    requires
        call_ensures(decimal, (n,), text),
        s@ == text@,
        plus@ == seq!['+'] + text@,
        call_ensures(parse_dec, (s, max), dec_read),
        call_ensures(parse_number, (s, max), read),
        call_ensures(parse_number, (plus, max), plus_read),
    ensures
        n <= max ==> dec_read == Some(n) && read == Some(n) && plus_read == Some(n),
        n > max ==> dec_read is None && read is None && plus_read is None,
{
    lemma_parse_dec(n as nat, n as nat);
    assert(plus@.skip(1) =~= text@);
    assert(is_digit(text@[0]));
}

/// What is read as a number holds digits only, behind one plus sign at most.
pub proof fn law_number_holds_digits_only(s: &str, max: u64, n: u64, i: int)
    requires
        call_ensures(parse_number, (s, max), Some(n)),
        0 <= i < s@.len(),
    ensures
        n <= max,
        '0' <= s@[i] <= '9' || i == 0 && s@[0] == '+' && s@.len() > 1,
{
    if s@[0] == '+' {
        if i > 0 {
            assert(is_digit(s@.skip(1)[i - 1]));
        }
    } else {
        assert(is_digit(s@[i]));
    }
}

/// Padding adds zeros in front, as many as are missing, and keeps the text.
pub proof fn law_padding_keeps_the_text(s: &str, w: usize, r: String, i: int)
    requires
        call_ensures(pad_zeros, (s, w), r),
        0 <= i < r@.len(),
    ensures
        r@.len() == w || r@ == s@,
        r@.len() >= w && r@.len() >= s@.len(),
        i < r@.len() - s@.len() ==> r@[i] == '0',
        i >= r@.len() - s@.len() ==> r@[i] == s@[i - (r@.len() - s@.len())],
{
}

/// A text begins with another exactly when it is that text with something behind it; skipping the
/// beginning leaves what stands behind.
pub proof fn law_beginning_is_found_and_skipped(
    s: &str,
    p: &str,
    tail: Seq<char>,
    begins: bool,
    rest: String,
)
    requires
        call_ensures(starts_with, (s, p), begins),
        begins ==> call_ensures(skip_chars, (s, p@.len() as usize), rest),
        p@.len() <= usize::MAX,
    ensures
        s@ == p@ + tail ==> begins && rest@ == tail,
        begins ==> s@ == p@ + rest@,
{
    if s@ == p@ + tail {
        assert(s@.subrange(0, p@.len() as int) =~= p@);
        assert(s@.skip(p@.len() as int) =~= tail);
    }
    if begins {
        assert(s@ =~= s@.subrange(0, p@.len() as int) + s@.skip(p@.len() as int));
    }
}

/// The first characters of a text are as many as were asked for, or all there are.
pub proof fn law_first_characters_are_taken(s: &str, n: usize, r: String, i: int)
    requires
        call_ensures(take_chars, (s, n), r),
        0 <= i < r@.len(),
    ensures
        r@.len() <= n,
        r@.len() == n || r@.len() == s@.len(),
        r@[i] == s@[i],
{
}

/// The place that is found holds the character and none before it does; where there is none, it is
/// the length of the text.
pub proof fn law_first_place_is_found(v: &Vec<char>, c: char, r: usize, i: int)
    requires
        call_ensures(find_first, (v, c), r),
        0 <= i < v@.len(),
    ensures
        i < r ==> v@[i] != c,
        i == r ==> v@[i] == c,
        v@[i] == c ==> r <= i,
        r <= v@.len(),
{
    lemma_first_place(v@, c);
}

/// No visible character of ASCII is white space or a control character; the blank, the tabulator
/// and the line breaks are white space, and all but the blank are control characters.
pub proof fn law_visible_characters_are_kept_apart(c: char, space: bool, control: bool)
    requires
        call_ensures(is_whitespace, (c,), space),
        call_ensures(is_control_char, (c,), control),
    ensures
        '!' <= c <= '~' ==> !space && !control,
        c == ' ' ==> space && !control,
        c == '\t' || c == '\n' || c == '\r' ==> space && control,
        c == '\0' || c == '\x7f' ==> control && !space,
        c == '\u{3000}' ==> space && !control,
{
}

proof fn lemma_trim_core(
    pre: Seq<char>,
    core: Seq<char>,
    post: Seq<char>,
    drop: spec_fn(char) -> bool,
)
    requires
        core.len() > 0 ==> !drop(core[0]) && !drop(core.last()),
        forall|i: int| 0 <= i < pre.len() ==> drop(#[trigger] pre[i]),
        forall|i: int| 0 <= i < post.len() ==> drop(#[trigger] post[i]),
    ensures
        trimmed(pre + core + post, drop) == core,
    decreases pre.len() + post.len(),
{
    let s = pre + core + post;
    if pre.len() > 0 {
        assert(drop(pre[0]) && s[0] == pre[0]);
        assert forall|i: int| 0 <= i < pre.drop_first().len() implies drop(
            #[trigger] pre.drop_first()[i],
        ) by {
            assert(drop(pre[i + 1]));
        }
        lemma_trim_core(pre.drop_first(), core, post, drop);
        assert(s.drop_first() =~= pre.drop_first() + core + post);
    } else if core.len() == 0 {
        assert(s =~= post);
        if post.len() > 0 {
            assert(drop(post[0]));
            assert forall|i: int| 0 <= i < post.drop_first().len() implies drop(
                #[trigger] post.drop_first()[i],
            ) by {
                assert(drop(post[i + 1]));
            }
            lemma_trim_core(pre, core, post.drop_first(), drop);
            assert(s.drop_first() =~= pre + core + post.drop_first());
        } else {
            assert(s =~= core);
        }
    } else {
        assert(s[0] == core[0]);
        assert(trimmed_start(s, drop) == s);
        if post.len() > 0 {
            assert(drop(post.last()) && s.last() == post.last());
            lemma_trim_core(pre, core, post.drop_last(), drop);
            let t = pre + core + post.drop_last();
            assert(s.drop_last() =~= t);
            assert(t[0] == core[0]);
            assert(trimmed_start(t, drop) == t);
        } else {
            assert(s =~= core);
        }
    }
}

/// Trimming takes away all the white space around a text and nothing else.
pub proof fn law_white_space_around_a_text_is_taken_away(
    v: &Vec<char>,
    pre: Seq<char>,
    core: Seq<char>,
    post: Seq<char>,
    r: Vec<char>,
)
    requires
        call_ensures(trim_space, (v,), r),
        v@ == pre + core + post,
        forall|i: int| 0 <= i < pre.len() ==> is_space(#[trigger] pre[i]),
        forall|i: int| 0 <= i < post.len() ==> is_space(#[trigger] post[i]),
        core.len() > 0 ==> !is_space(core[0]) && !is_space(core.last()),
    ensures
        r@ == core,
{
    lemma_trim_core(pre, core, post, |c: char| is_space(c));
}

/// Trimming takes away all the full stops around a text and nothing else.
pub proof fn law_full_stops_around_a_text_are_taken_away(
    v: &Vec<char>,
    pre: Seq<char>,
    core: Seq<char>,
    post: Seq<char>,
    r: Vec<char>,
)
    requires
        call_ensures(trim_dots, (v,), r),
        v@ == pre + core + post,
        forall|i: int| 0 <= i < pre.len() ==> #[trigger] pre[i] == '.',
        forall|i: int| 0 <= i < post.len() ==> #[trigger] post[i] == '.',
        core.len() > 0 ==> core[0] != '.' && core.last() != '.',
    ensures
        r@ == core,
{
    lemma_trim_core(pre, core, post, |c: char| c == '.');
}

/// Texts that are put together stand one behind the other, with the separator between two
/// neighbours and nowhere else.
pub proof fn law_joined_texts_follow_each_other(
    v: &Vec<String>,
    longer: &Vec<String>,
    last: String,
    sep: &str,
    r: String,
    longer_r: String,
)
    requires
        longer@ == v@.push(last),
        call_ensures(join_all, (v, sep), r),
        call_ensures(join_all, (longer, sep), longer_r),
    ensures
        v@.len() == 0 ==> r@.len() == 0 && longer_r@ == last@,
        v@.len() > 0 ==> longer_r@ == r@ + sep@ + last@,
{
    let a = v@.map_values(|s: String| s@);
    let b = longer@.map_values(|s: String| s@);
    assert(b =~= a.push(last@));
    assert(b.drop_last() =~= a);
}

} // verus!
