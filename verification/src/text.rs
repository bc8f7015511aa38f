//! Character-level helpers shared by the command grammar and the extensions:
//! searching for a pattern, splitting on it, and reading a decimal number.

use vstd::prelude::*;
use vstd::string::*;

verus! {

/// `p` stands in `s` at position `i`.
pub open spec fn occurs_at(s: Seq<char>, p: Seq<char>, i: int) -> bool {
    &&& 0 <= i
    &&& i + p.len() <= s.len()
    &&& s.subrange(i, i + p.len()) == p
}

/// `k` is the first position at or after `from` where `p` stands in `s`.
pub open spec fn is_first_at(s: Seq<char>, p: Seq<char>, from: int, k: int) -> bool {
    &&& from <= k
    &&& occurs_at(s, p, k)
    &&& forall|j: int| from <= j < k ==> !occurs_at(s, p, j)
}

/// The first position at or after `from` where `p` stands in `s`, or the
/// length of `s` where there is none.
pub open spec fn find_from(s: Seq<char>, p: Seq<char>, from: int) -> int {
    if exists|k: int| is_first_at(s, p, from, k) {
        choose|k: int| is_first_at(s, p, from, k)
    } else {
        s.len() as int
    }
}

/// `s` begins with `p`.
pub open spec fn starts_with(s: Seq<char>, p: Seq<char>) -> bool {
    occurs_at(s, p, 0)
}

/// The pieces of `s` from position `from` on, cut at each occurrence of `p`
/// found from left to right; the occurrences themselves are left out.
pub open spec fn split_from(s: Seq<char>, p: Seq<char>, from: int) -> Seq<Seq<char>>
    decreases s.len() - from,
{
    let k = find_from(s, p, from);
    if p.len() == 0 || from < 0 || from > s.len() {
        seq![s]
    } else if k < from || k + p.len() > s.len() {
        seq![s.subrange(from, s.len() as int)]
    } else {
        seq![s.subrange(from, k)] + split_from(s, p, k + p.len())
    }
}

/// The pieces of `s` between the occurrences of a non-empty pattern `p`: one
/// more piece than there are occurrences.
pub open spec fn split(s: Seq<char>, p: Seq<char>) -> Seq<Seq<char>> {
    split_from(s, p, 0)
}

/// The view of each string of `v`, in order.
pub open spec fn views(v: Seq<String>) -> Seq<Seq<char>> {
    Seq::new(v.len(), |i: int| v[i]@)
}

/// A first occurrence is the one that `find_from` names.
pub proof fn lemma_find_from_is(s: Seq<char>, p: Seq<char>, from: int, k: int)
    requires
        is_first_at(s, p, from, k),
    ensures
        find_from(s, p, from) == k,
{
    let c = choose|c: int| is_first_at(s, p, from, c);
    assert(is_first_at(s, p, from, c));
    if c < k {
        assert(!occurs_at(s, p, c));
    }
    if k < c {
        assert(!occurs_at(s, p, k));
    }
}

/// Without any occurrence at or after `from`, `find_from` gives the length.
pub proof fn lemma_find_from_none(s: Seq<char>, p: Seq<char>, from: int)
    requires
        forall|j: int| from <= j ==> !occurs_at(s, p, j),
    ensures
        find_from(s, p, from) == s.len(),
{
    assert forall|k: int| !is_first_at(s, p, from, k) by {
        if from <= k {
            assert(!occurs_at(s, p, k));
        }
    }
}

/// An occurrence at or after `from` has a first one, at or before it, and
/// `find_from` names that one.
pub proof fn lemma_first_occurrence(s: Seq<char>, p: Seq<char>, from: int, j: int)
    requires
        from <= j,
        occurs_at(s, p, j),
    ensures
        from <= find_from(s, p, from) <= j,
        is_first_at(s, p, from, find_from(s, p, from)),
    decreases j - from,
{
    if forall|i: int| from <= i < j ==> !occurs_at(s, p, i) {
        assert(is_first_at(s, p, from, j));
        lemma_find_from_is(s, p, from, j);
    } else {
        let i = choose|i: int| from <= i < j && occurs_at(s, p, i);
        lemma_first_occurrence(s, p, from, i);
    }
}

/// A pattern of one character stands where that character stands.
pub proof fn lemma_occurs_single(s: Seq<char>, c: char, j: int)
    ensures
        occurs_at(s, seq![c], j) <==> 0 <= j < s.len() && s[j] == c,
{
    if 0 <= j < s.len() {
        if s[j] == c {
            assert(s.subrange(j, j + 1) =~= seq![c]);
        } else {
            assert(s.subrange(j, j + 1)[0] == s[j]);
        }
    }
}

/// Where the character `c` first stands in `s`: `find_from` gives that place,
/// or the length of `s` where `c` stands nowhere.
pub proof fn lemma_find_char(s: Seq<char>, c: char)
    ensures
        0 <= find_from(s, seq![c], 0) <= s.len(),
        find_from(s, seq![c], 0) < s.len() ==> s[find_from(s, seq![c], 0)] == c,
        forall|j: int| 0 <= j < find_from(s, seq![c], 0) ==> #[trigger] s[j] != c,
{
    let k = find_from(s, seq![c], 0);
    if exists|k: int| is_first_at(s, seq![c], 0, k) {
        let w = choose|w: int| is_first_at(s, seq![c], 0, w);
        assert(is_first_at(s, seq![c], 0, w));
        assert(k == w);
        lemma_occurs_single(s, c, k);
        assert forall|j: int| 0 <= j < k implies #[trigger] s[j] != c by {
            lemma_occurs_single(s, c, j);
        }
    } else {
        assert forall|j: int| 0 <= j < s.len() implies #[trigger] s[j] != c by {
            if s[j] == c {
                lemma_occurs_single(s, c, j);
                lemma_first_occurrence(s, seq![c], 0, j);
            }
        }
    }
}

/// The characters of `s`, in order.
pub fn to_chars(s: &str) -> (v: Vec<char>)
    ensures
        v@ == s@,
{
    let n: usize = s.unicode_len();
    let mut v: Vec<char> = Vec::new();
    let mut i: usize = 0;
    while i < n
        invariant
            n == s@.len(),
            i <= n,
            v@ == s@.take(i as int),
        decreases n - i,
    {
        let c: char = s.get_char(i);
        v.push(c);
        i += 1;
        assert(v@ =~= s@.take(i as int));
    }
    assert(s@.take(n as int) =~= s@);
    v
}

/// The characters of `s` from `from` up to `to`, as a string of their own.
pub fn substring(s: &str, from: usize, to: usize) -> (r: String)
    requires
        from <= to <= s@.len(),
    ensures
        r@ == s@.subrange(from as int, to as int),
{
    String::from_str(s.substring_char(from, to))
}

/// Whether `p` stands in `s` at position `i`.
pub fn matches_at(s: &Vec<char>, p: &Vec<char>, i: usize) -> (r: bool)
    ensures
        r == occurs_at(s@, p@, i as int),
{
    if p.len() > s.len() || i > s.len() - p.len() {
        return false;
    }
    let mut j: usize = 0;
    while j < p.len()
        invariant
            i + p.len() <= s.len(),
            j <= p.len(),
            s@.subrange(i as int, i + j) == p@.take(j as int),
        decreases p.len() - j,
    {
        if s[i + j] != p[j] {
            assert(s@.subrange(i as int, i + p.len())[j as int] != p@[j as int]);
            return false;
        }
        j += 1;
        assert(s@.subrange(i as int, i + j) =~= p@.take(j as int)) by {
            assert(s@.subrange(i as int, i + j - 1) == p@.take(j - 1));
            assert forall|x: int| 0 <= x < j implies s@.subrange(i as int, i + j)[x] == p@.take(
                j as int,
            )[x] by {
                if x < j - 1 {
                    assert(s@.subrange(i as int, i + j - 1)[x] == p@.take(j - 1)[x]);
                }
            }
        }
    }
    assert(p@.take(p.len() as int) =~= p@);
    true
}

/// The first position at or after `from` where `p` stands in `s`; the length
/// of `s` where there is none.
pub fn find(s: &Vec<char>, p: &Vec<char>, from: usize) -> (k: usize)
    requires
        from <= s.len(),
    ensures
        k == find_from(s@, p@, from as int),
        from <= k <= s.len(),
        k < s.len() || p.len() > 0 ==> (occurs_at(s@, p@, k as int) <==> k + p.len() <= s.len()),
{
    let mut i: usize = from;
    while i < s.len()
        invariant
            from <= i <= s.len(),
            forall|j: int| from <= j < i ==> !occurs_at(s@, p@, j),
        decreases s.len() - i,
    {
        if matches_at(s, p, i) {
            proof {
                lemma_find_from_is(s@, p@, from as int, i as int);
            }
            return i;
        }
        i += 1;
    }
    proof {
        if occurs_at(s@, p@, s.len() as int) {
            lemma_find_from_is(s@, p@, from as int, s.len() as int);
        } else {
            lemma_find_from_none(s@, p@, from as int);
        }
    }
    s.len()
}

/// The pieces of `s` between the occurrences of `p`, found from left to right.
/// An empty `p` cuts nowhere.
pub fn split_on(s: &str, p: &str) -> (v: Vec<String>)
    ensures
        views(v@) == split(s@, p@),
{
    let chars = to_chars(s);
    let pat = to_chars(p);
    let mut v: Vec<String> = Vec::new();
    if pat.len() == 0 {
        v.push(substring(s, 0, chars.len()));
        assert(s@.subrange(0, s@.len() as int) =~= s@);
        assert(views(v@) =~= seq![s@]);
        return v;
    }
    let mut from: usize = 0;
    loop
        invariant
            chars@ == s@,
            pat@ == p@,
            pat.len() > 0,
            from <= chars.len(),
            split(s@, p@) == views(v@) + split_from(s@, p@, from as int),
        decreases chars.len() - from,
    {
        let k = find(&chars, &pat, from);
        let ghost before = v@;
        if pat.len() > chars.len() - k {
            v.push(substring(s, from, chars.len()));
            assert(views(v@) =~= views(before) + seq![s@.subrange(from as int, s@.len() as int)]);
            return v;
        }
        v.push(substring(s, from, k));
        assert(views(v@) =~= views(before) + seq![s@.subrange(from as int, k as int)]);
        from = k + pat.len();
    }
}

/// `c` is one of the ten decimal digits.
pub open spec fn is_digit(c: char) -> bool {
    '0' <= c <= '9'
}

/// The number that a decimal digit stands for; zero for any other character.
pub open spec fn digit_value(c: char) -> nat {
    if is_digit(c) {
        (c as int - '0' as int) as nat
    } else {
        0
    }
}

/// The number that `s` denotes when read as decimal digits, most significant
/// first.
pub open spec fn decimal_value(s: Seq<char>) -> nat
    decreases s.len(),
{
    if s.len() == 0 {
        0
    } else {
        decimal_value(s.drop_last()) * 10 + digit_value(s.last())
    }
}

/// Every character of `s` is a decimal digit.
pub open spec fn all_digits(s: Seq<char>) -> bool {
    forall|i: int| 0 <= i < s.len() ==> is_digit(#[trigger] s[i])
}

/// `s` without one leading plus sign.
pub open spec fn without_plus(s: Seq<char>) -> Seq<char> {
    if s.len() > 0 && s[0] == '+' {
        s.skip(1)
    } else {
        s
    }
}

/// The number that `s` denotes: an optional plus sign, then at least one
/// decimal digit and nothing else, with a value that fits in 64 bits.
pub open spec fn parse_decimal(s: Seq<char>) -> Option<u64> {
    let d = without_plus(s);
    if d.len() > 0 && all_digits(d) && decimal_value(d) <= u64::MAX {
        Some(decimal_value(d) as u64)
    } else {
        None
    }
}

/// A prefix never denotes more than the whole.
pub proof fn lemma_decimal_prefix(s: Seq<char>, i: int)
    requires
        0 <= i <= s.len(),
    ensures
        decimal_value(s.take(i)) <= decimal_value(s),
    decreases s.len() - i,
{
    if i == s.len() {
        assert(s.take(i) =~= s);
    } else {
        lemma_decimal_prefix(s.drop_last(), i);
        assert(s.drop_last().take(i) =~= s.take(i));
    }
}

/// Reads `s` as a decimal number.
pub fn parse_u64(s: &str) -> (r: Option<u64>)
    ensures
        r == parse_decimal(s@),
{
    let chars = to_chars(s);
    let n: usize = chars.len();
    let start: usize = if n > 0 && chars[0] == '+' {
        1
    } else {
        0
    };
    let ghost d = without_plus(s@);
    assert(d =~= chars@.skip(start as int));
    if start == n {
        return None;
    }
    let mut acc: u64 = 0;
    let mut i: usize = start;
    while i < n
        invariant
            start <= i <= n,
            n == chars.len(),
            d == chars@.skip(start as int),
            d == without_plus(s@),
            all_digits(d.take(i - start)),
            acc == decimal_value(d.take(i - start)),
        decreases n - i,
    {
        let c: char = chars[i];
        assert(c == d[i - start]);
        if c < '0' || c > '9' {
            assert(!is_digit(d[i - start]));
            return None;
        }
        let digit: u64 = (c as u32 - '0' as u32) as u64;
        assert(digit == digit_value(c));
        assert(d.take(i - start + 1).drop_last() =~= d.take(i - start));
        assert(d.take(i - start + 1).last() == c);
        assert(decimal_value(d.take(i - start + 1)) == acc * 10 + digit);
        if acc > (u64::MAX - digit) / 10 {
            proof {
                lemma_decimal_prefix(d, i - start + 1);
            }
            return None;
        }
        acc = acc * 10 + digit;
        i += 1;
        assert forall|j: int| 0 <= j < i - start implies is_digit(
            #[trigger] d.take(i - start)[j],
        ) by {
            if j < i - start - 1 {
                assert(d.take(i - start - 1)[j] == d.take(i - start)[j]);
            }
        }
    }
    assert(d.take(n - start) =~= d);
    Some(acc)
}

} // verus!
