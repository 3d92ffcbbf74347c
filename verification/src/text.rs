//! Character-level text utilities: conversion between strings and
//! character vectors, splitting on delimiter sets, and trimming.

use vstd::prelude::*;
use vstd::string::*;

verus! {

/// Relies on `String::push`: appends exactly one character at the end.
#[verifier::external_body]
pub(crate) fn push_char(s: &mut String, c: char)
    ensures
        final(s)@ == old(s)@.push(c),
{
    s.push(c);
}

/// The characters of a string slice, collected into a vector.
pub fn chars_of(s: &str) -> (r: Vec<char>)
    ensures
        r@ == s@,
{
    let n = s.unicode_len();
    let mut r: Vec<char> = Vec::new();
    let mut i: usize = 0;
    while i < n
        invariant
            i <= n,
            n == s@.len(),
            r@ == s@.subrange(0, i as int),
        decreases n - i,
    {
        let c = s.get_char(i);
        r.push(c);
        assert(s@.subrange(0, i + 1) =~= s@.subrange(0, i as int).push(s@[i as int]));
        i = i + 1;
    }
    assert(r@ =~= s@);
    r
}

/// Segments of `s` between occurrences of separator characters, in order.
/// A string with no separator is one segment; each separator occurrence
/// ends a segment, so `k` occurrences give `k + 1` segments.
pub open spec fn split_any(s: Seq<char>, seps: Seq<char>) -> Seq<Seq<char>>
    decreases s.len(),
{
    if s.len() == 0 {
        seq![Seq::<char>::empty()]
    } else if seps.contains(s[0]) {
        seq![Seq::<char>::empty()] + split_any(s.drop_first(), seps)
    } else {
        let rest = split_any(s.drop_first(), seps);
        seq![seq![s[0]] + rest[0]] + rest.drop_first()
    }
}

pub proof fn lemma_split_any_len(s: Seq<char>, seps: Seq<char>)
    ensures
        split_any(s, seps).len() >= 1,
    decreases s.len(),
{
    if s.len() > 0 {
        lemma_split_any_len(s.drop_first(), seps);
    }
}

/// A string free of separator characters splits into itself alone.
pub proof fn lemma_split_any_no_sep(s: Seq<char>, seps: Seq<char>)
    requires
        forall|i: int| 0 <= i < s.len() ==> !seps.contains(s[i]),
    ensures
        split_any(s, seps) == seq![s],
    decreases s.len(),
{
    if s.len() == 0 {
        assert(s =~= Seq::<char>::empty());
        assert(split_any(s, seps) =~~= seq![s]);
    } else {
        lemma_split_any_no_sep(s.drop_first(), seps);
        let rest = split_any(s.drop_first(), seps);
        assert(rest[0] == s.drop_first());
        assert(seq![s[0]] + rest[0] =~= s);
        assert(split_any(s, seps) =~~= seq![s]);
    }
}

/// Splitting at the first separator occurrence: everything before it is
/// the first segment, and the rest splits on its own.
pub proof fn lemma_split_any_first(a: Seq<char>, c: char, b: Seq<char>, seps: Seq<char>)
    requires
        forall|i: int| 0 <= i < a.len() ==> !seps.contains(a[i]),
        seps.contains(c),
    ensures
        split_any(a + seq![c] + b, seps) == seq![a] + split_any(b, seps),
    decreases a.len(),
{
    let s = a + seq![c] + b;
    if a.len() == 0 {
        assert(s[0] == c);
        assert(s.drop_first() =~= b);
        assert(a =~= Seq::<char>::empty());
        assert(split_any(s, seps) =~~= seq![a] + split_any(b, seps));
    } else {
        assert(s[0] == a[0]);
        assert(!seps.contains(s[0]));
        assert(s.drop_first() =~= a.drop_first() + seq![c] + b);
        lemma_split_any_first(a.drop_first(), c, b, seps);
        let rest = split_any(s.drop_first(), seps);
        lemma_split_any_len(b, seps);
        assert(rest == seq![a.drop_first()] + split_any(b, seps));
        assert(rest[0] == a.drop_first());
        assert(seq![s[0]] + rest[0] =~= a);
        assert(rest.drop_first() =~= split_any(b, seps));
        assert(split_any(s, seps) =~~= seq![a] + split_any(b, seps));
    }
}

/// Whether `c` occurs in `v`.
pub fn contains_char(v: &Vec<char>, c: char) -> (r: bool)
    ensures
        r == v@.contains(c),
{
    let mut i: usize = 0;
    while i < v.len()
        invariant
            i <= v@.len(),
            forall|j: int| 0 <= j < i ==> v@[j] != c,
        decreases v@.len() - i,
    {
        if v[i] == c {
            return true;
        }
        i = i + 1;
    }
    false
}

/// The characters of `v` from `a` (inclusive) to `b` (exclusive).
pub fn subvec(v: &Vec<char>, a: usize, b: usize) -> (r: Vec<char>)
    requires
        a <= b <= v@.len(),
    ensures
        r@ == v@.subrange(a as int, b as int),
{
    let mut r: Vec<char> = Vec::new();
    let mut i: usize = a;
    while i < b
        invariant
            a <= i <= b <= v@.len(),
            r@ == v@.subrange(a as int, i as int),
        decreases b - i,
    {
        r.push(v[i]);
        assert(v@.subrange(a as int, i + 1) =~= v@.subrange(a as int, i as int).push(v@[i as int]));
        i = i + 1;
    }
    r
}

/// Splits `v` into segments separated by any character of `seps`.
pub fn split_chars(v: &Vec<char>, seps: &Vec<char>) -> (r: Vec<Vec<char>>)
    ensures
        r.deep_view() == split_any(v@, seps@),
{
    let mut r: Vec<Vec<char>> = Vec::new();
    let mut cur: Vec<char> = Vec::new();
    let mut i: usize = 0;
    assert(cur@ + v@.subrange(0, v@.len() as int) =~= v@);
    assert(r.deep_view() + split_any(v@, seps@) =~~= split_any(v@, seps@));
    while i < v.len()
        invariant
            i <= v@.len(),
            forall|j: int| 0 <= j < cur@.len() ==> !seps@.contains(cur@[j]),
            split_any(v@, seps@) == r.deep_view() + split_any(
                cur@ + v@.subrange(i as int, v@.len() as int),
                seps@,
            ),
        decreases v@.len() - i,
    {
        let c = v[i];
        let ghost tail = v@.subrange(i + 1, v@.len() as int);
        let ghost cur0 = cur@;
        let ghost sub_i = v@.subrange(i as int, v@.len() as int);
        assert(cur0 + sub_i =~= (cur0 + seq![c]) + tail);
        if contains_char(seps, c) {
            let ghost r0 = r.deep_view();
            proof {
                lemma_split_any_first(cur0, c, tail, seps@);
                assert(split_any(cur0 + sub_i, seps@) == seq![cur0] + split_any(tail, seps@));
            }
            r.push(cur);
            cur = Vec::new();
            proof {
                assert(r.deep_view() =~~= r0.push(cur0));
                assert(r0.push(cur0) + split_any(tail, seps@) =~~= r0 + (seq![cur0] + split_any(
                    tail,
                    seps@,
                )));
                assert(cur@ + tail =~= tail);
                assert(split_any(v@, seps@) == r.deep_view() + split_any(cur@ + tail, seps@));
            }
        } else {
            cur.push(c);
            proof {
                assert(cur@ =~= cur0 + seq![c]);
                assert(cur@ + tail =~= cur0 + sub_i);
                assert(split_any(v@, seps@) == r.deep_view() + split_any(cur@ + tail, seps@));
            }
        }
        i = i + 1;
    }
    let ghost cur0 = cur@;
    let ghost r0 = r.deep_view();
    proof {
        assert(cur0 + v@.subrange(v@.len() as int, v@.len() as int) =~= cur0);
        lemma_split_any_no_sep(cur0, seps@);
    }
    r.push(cur);
    proof {
        assert(r.deep_view() =~~= r0.push(cur0));
        assert(r0.push(cur0) =~~= r0 + seq![cur0]);
    }
    assert(r.deep_view() =~~= split_any(v@, seps@));
    r
}

/// `s` with leading characters of `cs` removed.
pub open spec fn trim_left(s: Seq<char>, cs: Seq<char>) -> Seq<char>
    decreases s.len(),
{
    if s.len() > 0 && cs.contains(s[0]) {
        trim_left(s.drop_first(), cs)
    } else {
        s
    }
}

/// `s` with trailing characters of `cs` removed.
pub open spec fn trim_right(s: Seq<char>, cs: Seq<char>) -> Seq<char>
    decreases s.len(),
{
    if s.len() > 0 && cs.contains(s.last()) {
        trim_right(s.drop_last(), cs)
    } else {
        s
    }
}

/// `s` with characters of `cs` removed from both ends.
pub open spec fn trim_set(s: Seq<char>, cs: Seq<char>) -> Seq<char> {
    trim_right(trim_left(s, cs), cs)
}

/// Removes characters of `cs` from both ends of `v`.
pub fn trim_chars(v: &Vec<char>, cs: &Vec<char>) -> (r: Vec<char>)
    ensures
        r@ == trim_set(v@, cs@),
{
    let n = v.len();
    let mut a: usize = 0;
    assert(v@.subrange(0, n as int) =~= v@);
    loop
        invariant
            a <= n,
            n == v@.len(),
            trim_left(v@, cs@) == trim_left(v@.subrange(a as int, n as int), cs@),
        ensures
            a <= n,
            trim_left(v@, cs@) == v@.subrange(a as int, n as int),
        decreases n - a,
    {
        if a >= n {
            assert(v@.subrange(a as int, n as int) =~= Seq::<char>::empty());
            break;
        }
        if !contains_char(cs, v[a]) {
            assert(v@.subrange(a as int, n as int)[0] == v@[a as int]);
            break;
        }
        assert(v@.subrange(a as int, n as int)[0] == v@[a as int]);
        assert(v@.subrange(a as int, n as int).drop_first() =~= v@.subrange(a + 1, n as int));
        a = a + 1;
    }
    let ghost mid = v@.subrange(a as int, n as int);
    let mut b: usize = n;
    loop
        invariant
            a <= b <= n,
            n == v@.len(),
            mid == v@.subrange(a as int, n as int),
            trim_right(mid, cs@) == trim_right(v@.subrange(a as int, b as int), cs@),
        ensures
            a <= b <= n,
            trim_right(mid, cs@) == v@.subrange(a as int, b as int),
        decreases b - a,
    {
        if b <= a {
            assert(v@.subrange(a as int, b as int) =~= Seq::<char>::empty());
            break;
        }
        if !contains_char(cs, v[b - 1]) {
            assert(v@.subrange(a as int, b as int).last() == v@[b - 1]);
            break;
        }
        assert(v@.subrange(a as int, b as int).last() == v@[b - 1]);
        assert(v@.subrange(a as int, b as int).drop_last() =~= v@.subrange(a as int, b - 1));
        b = b - 1;
    }
    subvec(v, a, b)
}

/// The character for one decimal digit.
pub open spec fn digit_char(d: int) -> char {
    if d == 0 {
        '0'
    } else if d == 1 {
        '1'
    } else if d == 2 {
        '2'
    } else if d == 3 {
        '3'
    } else if d == 4 {
        '4'
    } else if d == 5 {
        '5'
    } else if d == 6 {
        '6'
    } else if d == 7 {
        '7'
    } else if d == 8 {
        '8'
    } else {
        '9'
    }
}

/// The decimal digits of a non-negative integer, most significant first.
pub open spec fn spec_dec_nat(n: int) -> Seq<char>
    decreases n,
{
    if n < 10 {
        seq![digit_char(n)]
    } else {
        spec_dec_nat(n / 10).push(digit_char(n % 10))
    }
}

/// The decimal rendering of an integer, with a leading `-` when negative.
pub open spec fn spec_dec(n: int) -> Seq<char> {
    if n < 0 {
        seq!['-'] + spec_dec_nat(-n)
    } else {
        spec_dec_nat(n)
    }
}

fn digit_to_char(d: i64) -> (c: char)
    requires
        0 <= d < 10,
    ensures
        c == digit_char(d as int),
{
    if d == 0 {
        '0'
    } else if d == 1 {
        '1'
    } else if d == 2 {
        '2'
    } else if d == 3 {
        '3'
    } else if d == 4 {
        '4'
    } else if d == 5 {
        '5'
    } else if d == 6 {
        '6'
    } else if d == 7 {
        '7'
    } else if d == 8 {
        '8'
    } else {
        '9'
    }
}

/// The decimal rendering of `n`.
pub fn i32_to_string(n: i32) -> (r: String)
    ensures
        r@ == spec_dec(n as int),
{
    let mut r = String::new();
    let mut m: i64 = n as i64;
    if m < 0 {
        push_char(&mut r, '-');
        m = -m;
    }
    let ghost prefix = r@;
    let ghost m0 = m as int;
    if m == 0 {
        push_char(&mut r, '0');
        assert(r@ =~= spec_dec(n as int));
        return r;
    }
    let mut digits: Vec<char> = Vec::new();
    while m > 0
        invariant
            0 <= m <= m0,
            m0 <= 0x8000_0000,
            m > 0 ==> spec_dec_nat(m0) == spec_dec_nat(m as int) + digits@,
            m == 0 ==> spec_dec_nat(m0) == digits@,
        decreases m,
    {
        let ghost digits0 = digits@;
        let d = m % 10;
        let dc = digit_to_char(d);
        digits.insert(0, dc);
        assert(digits@ =~= seq![dc] + digits0);
        proof {
            if m >= 10 {
                assert(spec_dec_nat(m as int) == spec_dec_nat(m as int / 10).push(
                    digit_char(m as int % 10),
                ));
                assert(spec_dec_nat(m as int / 10).push(dc) + digits0 =~= spec_dec_nat(
                    m as int / 10,
                ) + (seq![dc] + digits0));
            } else {
                assert(spec_dec_nat(m as int) == seq![dc]);
                assert(seq![dc] + digits0 =~= spec_dec_nat(m as int) + digits0);
            }
        }
        m = m / 10;
    }
    let tail = chars_to_string(&digits);
    r.append(tail.as_str());
    assert(r@ =~= spec_dec(n as int));
    r
}

/// A string holding exactly the given characters.
pub fn chars_to_string(v: &Vec<char>) -> (r: String)
    ensures
        r@ == v@,
{
    let mut r = String::new();
    let mut i: usize = 0;
    while i < v.len()
        invariant
            i <= v@.len(),
            r@ == v@.subrange(0, i as int),
        decreases v@.len() - i,
    {
        push_char(&mut r, v[i]);
        assert(v@.subrange(0, i + 1) =~= v@.subrange(0, i as int).push(v@[i as int]));
        i = i + 1;
    }
    assert(r@ =~= v@);
    r
}

} // verus!
