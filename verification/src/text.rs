//! Text primitives over character sequences: searching, splitting,
//! replacing and trimming, each with a mathematical definition.

use vstd::prelude::*;

use crate::unicode::{char_is_whitespace, is_whitespace};

verus! {

/// `pat` occurs in `s` starting at index `i`.
pub open spec fn matches_at(s: Seq<char>, pat: Seq<char>, i: int) -> bool {
    &&& 0 <= i
    &&& i + pat.len() <= s.len()
    &&& s.subrange(i, i + pat.len()) == pat
}

/// The first index at or after `i` where `pat` occurs in `s`.
pub open spec fn find_from(s: Seq<char>, pat: Seq<char>, i: int) -> Option<int>
    decreases s.len() + 1 - i,
{
    if i < 0 || i + pat.len() > s.len() {
        None
    } else if matches_at(s, pat, i) {
        Some(i)
    } else {
        find_from(s, pat, i + 1)
    }
}

/// The first index where `pat` occurs in `s`.
pub open spec fn first_match(s: Seq<char>, pat: Seq<char>) -> Option<int> {
    find_from(s, pat, 0)
}

/// What comes before the first occurrence of `pat` (the whole of `s` when
/// there is none): the first item that splitting `s` on `pat` yields.
pub open spec fn prefix_before(s: Seq<char>, pat: Seq<char>) -> Seq<char> {
    match first_match(s, pat) {
        Some(i) => s.take(i),
        None => s,
    }
}

/// Splitting `s` at the first occurrence of `pat`.
pub open spec fn split_once(s: Seq<char>, pat: Seq<char>) -> Option<(Seq<char>, Seq<char>)> {
    match first_match(s, pat) {
        Some(i) => Some((s.take(i), s.skip(i + pat.len()))),
        None => None,
    }
}

/// Splitting at the first occurrence of `pat` gives two parts that, joined
/// by `pat`, make up `s` again.
pub proof fn lemma_split_once_joins(s: Seq<char>, pat: Seq<char>)
    ensures
        split_once(s, pat) matches Some((a, b)) ==> s == a + pat + b,
{
    lemma_find_from(s, pat, 0);
    if let Some(i) = first_match(s, pat) {
        assert(s =~= s.take(i) + s.subrange(i, i + pat.len()) + s.skip(i + pat.len()));
    }
}

/// `s` contains `pat` somewhere.
pub open spec fn contains_seq(s: Seq<char>, pat: Seq<char>) -> bool {
    first_match(s, pat) is Some
}

/// Facts about `find_from`: where it points there is a match, and no match
/// lies between `i` and that point (or after `i` at all, when it finds none).
pub proof fn lemma_find_from(s: Seq<char>, pat: Seq<char>, i: int)
    requires
        0 <= i,
    ensures
        match find_from(s, pat, i) {
            Some(k) => i <= k && matches_at(s, pat, k) && forall|j: int|
                i <= j < k ==> !matches_at(s, pat, j),
            None => forall|j: int| i <= j ==> !matches_at(s, pat, j),
        },
    decreases s.len() + 1 - i,
{
    if i + pat.len() > s.len() {
    } else if matches_at(s, pat, i) {
    } else {
        lemma_find_from(s, pat, i + 1);
    }
}

/// `pat` occurs in `s` at `i`, read off character by character.
fn matches_here(s: &[char], pat: &[char], i: usize) -> (r: bool)
    requires
        i + pat@.len() <= s@.len(),
    ensures
        r == matches_at(s@, pat@, i as int),
{
    let mut k: usize = 0;
    while k < pat.len()
        invariant
            k <= pat@.len(),
            i + pat@.len() <= s@.len(),
            s@.len() == s.len(),
            forall|j: int| 0 <= j < k ==> s@[i + j] == pat@[j],
        decreases pat@.len() - k,
    {
        if s[i + k] != pat[k] {
            assert(s@.subrange(i as int, i + pat@.len())[k as int] != pat@[k as int]);
            return false;
        }
        k = k + 1;
    }
    assert(s@.subrange(i as int, i + pat@.len()) =~= pat@);
    true
}

/// The first index where `pat` occurs in `s`.
pub fn find_first(s: &[char], pat: &[char]) -> (r: Option<usize>)
    ensures
        match r {
            Some(i) => first_match(s@, pat@) == Some(i as int) && matches_at(s@, pat@, i as int),
            None => first_match(s@, pat@) is None,
        },
{
    if pat.len() > s.len() {
        return None;
    }
    if pat.len() == 0 {
        assert(s@.subrange(0, 0) =~= pat@);
        return Some(0);
    }
    let last = s.len() - pat.len();
    let mut i: usize = 0;
    while i <= last
        invariant
            last + pat@.len() == s@.len(),
            pat@.len() > 0,
            s@.len() == s.len(),
            i <= last + 1,
            find_from(s@, pat@, 0) == find_from(s@, pat@, i as int),
        decreases last + 1 - i,
    {
        if matches_here(s, pat, i) {
            return Some(i);
        }
        i = i + 1;
    }
    None
}

/// `s` with every non-overlapping occurrence of `from`, scanning left to
/// right, replaced by `to`.
pub open spec fn replace_all(s: Seq<char>, from: Seq<char>, to: Seq<char>) -> Seq<char>
    recommends
        from.len() > 0,
    decreases s.len(),
{
    if s.len() == 0 {
        s
    } else if 0 < from.len() <= s.len() && s.take(from.len() as int) == from {
        to + replace_all(s.skip(from.len() as int), from, to)
    } else {
        seq![s[0]] + replace_all(s.drop_first(), from, to)
    }
}

/// `s` without its leading whitespace.
pub open spec fn trim_start(s: Seq<char>) -> Seq<char>
    decreases s.len(),
{
    if s.len() > 0 && char_is_whitespace(s[0]) {
        trim_start(s.drop_first())
    } else {
        s
    }
}

/// `s` without its trailing whitespace.
pub open spec fn trim_end(s: Seq<char>) -> Seq<char>
    decreases s.len(),
{
    if s.len() > 0 && char_is_whitespace(s.last()) {
        trim_end(s.drop_last())
    } else {
        s
    }
}

/// `s` without leading and trailing whitespace.
pub open spec fn trim(s: Seq<char>) -> Seq<char> {
    trim_end(trim_start(s))
}

/// Appends the characters of `x` to `out`.
pub fn push_all(out: &mut Vec<char>, x: &[char])
    ensures
        final(out)@ == old(out)@ + x@,
{
    let mut k: usize = 0;
    while k < x.len()
        invariant
            k <= x@.len(),
            out@ == old(out)@ + x@.take(k as int),
        decreases x@.len() - k,
    {
        out.push(x[k]);
        k = k + 1;
        assert(x@.take(k as int) =~= x@.take(k - 1).push(x@[k - 1]));
    }
    assert(x@.take(k as int) =~= x@);
}

/// Replaces every non-overlapping occurrence of `from` in `s` by `to`.
pub fn replace(s: &[char], from: &[char], to: &[char]) -> (r: Vec<char>)
    requires
        from@.len() > 0,
    ensures
        r@ == replace_all(s@, from@, to@),
{
    let mut out: Vec<char> = Vec::new();
    let mut i: usize = 0;
    assert(s@.skip(0) =~= s@);
    while i < s.len()
        invariant
            i <= s@.len(),
            s@.len() == s.len(),
            from@.len() > 0,
            out@ + replace_all(s@.skip(i as int), from@, to@) == replace_all(s@, from@, to@),
        decreases s@.len() - i,
    {
        let ghost t = s@.skip(i as int);
        if from.len() <= s.len() - i && matches_here(s, from, i) {
            assert(t.take(from@.len() as int) =~= s@.subrange(i as int, i + from@.len()));
            assert(t.skip(from@.len() as int) =~= s@.skip(i + from@.len()));
            assert(out@ + to@ + replace_all(s@.skip(i + from@.len()), from@, to@) =~= out@ + (to@
                + replace_all(t.skip(from@.len() as int), from@, to@)));
            push_all(&mut out, to);
            i = i + from.len();
        } else {
            proof {
                if from@.len() <= t.len() {
                    assert(t.take(from@.len() as int) =~= s@.subrange(i as int, i + from@.len()));
                }
            }
            assert(t.drop_first() =~= s@.skip(i + 1));
            assert(out@.push(s@[i as int]) + replace_all(s@.skip(i + 1), from@, to@) =~= out@ + (
            seq![t[0]] + replace_all(t.drop_first(), from@, to@)));
            out.push(s[i]);
            i = i + 1;
        }
    }
    assert(s@.skip(i as int) =~= Seq::<char>::empty());
    assert(out@ + Seq::<char>::empty() =~= out@);
    out
}

/// The bounds of `s` without its leading and trailing whitespace.
pub fn trim_bounds(s: &[char]) -> (r: (usize, usize))
    ensures
        r.0 <= r.1 <= s@.len(),
        s@.subrange(r.0 as int, r.1 as int) == trim(s@),
{
    let mut a: usize = 0;
    assert(s@.skip(0) =~= s@);
    while a < s.len() && is_whitespace(s[a])
        invariant
            a <= s@.len(),
            s@.len() == s.len(),
            trim_start(s@.skip(a as int)) == trim_start(s@),
        decreases s@.len() - a,
    {
        assert(s@.skip(a as int).drop_first() =~= s@.skip(a + 1));
        a = a + 1;
    }
    let ghost start = s@.skip(a as int);
    assert(trim_start(start) == start);
    let mut b: usize = s.len();
    assert(s@.subrange(a as int, b as int) =~= start);
    while b > a && is_whitespace(s[b - 1])
        invariant
            a <= b <= s@.len(),
            s@.len() == s.len(),
            start == s@.skip(a as int),
            trim_end(s@.subrange(a as int, b as int)) == trim_end(start),
        decreases b,
    {
        assert(s@.subrange(a as int, b as int).drop_last() =~= s@.subrange(a as int, b - 1));
        b = b - 1;
    }
    (a, b)
}

/// With `find_from` pointing nowhere from `i` on, `pat` occurs nowhere from
/// `i` on, and the other way round.
pub proof fn lemma_find_from_none(s: Seq<char>, pat: Seq<char>, i: int)
    requires
        0 <= i,
    ensures
        find_from(s, pat, i) is None <==> forall|j: int| i <= j ==> !matches_at(s, pat, j),
{
    lemma_find_from(s, pat, i);
}

/// A match at `i` with none before it is the first match.
pub proof fn lemma_first_match_at(s: Seq<char>, pat: Seq<char>, i: int)
    requires
        matches_at(s, pat, i),
        forall|j: int| 0 <= j < i ==> !matches_at(s, pat, j),
    ensures
        first_match(s, pat) == Some(i),
{
    lemma_find_from(s, pat, 0);
}

/// What comes before the first occurrence of `pat` holds no occurrence of
/// it, so cutting at `pat` a second time changes nothing.
pub proof fn lemma_prefix_before_idempotent(s: Seq<char>, pat: Seq<char>)
    requires
        pat.len() > 0,
    ensures
        prefix_before(prefix_before(s, pat), pat) == prefix_before(s, pat),
        first_match(prefix_before(s, pat), pat) is None,
{
    lemma_find_from(s, pat, 0);
    let p = prefix_before(s, pat);
    match first_match(s, pat) {
        Some(i) => {
            assert forall|j: int| 0 <= j implies !matches_at(p, pat, j) by {
                if matches_at(p, pat, j) {
                    assert(p.subrange(j, j + pat.len()) =~= s.subrange(j, j + pat.len()));
                    assert(matches_at(s, pat, j));
                }
            }
        },
        None => {},
    }
    lemma_find_from_none(p, pat, 0);
}

/// `pat` occurs nowhere in `s`.
pub open spec fn no_occurrence(s: Seq<char>, pat: Seq<char>) -> bool {
    forall|j: int| !matches_at(s, pat, j)
}

/// `a` and `b` agree where both have characters.
pub open spec fn compatible(a: Seq<char>, b: Seq<char>) -> bool {
    forall|k: int| 0 <= k < a.len() && k < b.len() ==> a[k] == b[k]
}

/// With no occurrence of `from`, replacing changes nothing.
pub proof fn lemma_replace_all_absent(s: Seq<char>, from: Seq<char>, to: Seq<char>)
    requires
        from.len() > 0,
        no_occurrence(s, from),
    ensures
        replace_all(s, from, to) == s,
    decreases s.len(),
{
    if s.len() > 0 {
        assert(!matches_at(s, from, 0));
        if from.len() <= s.len() {
            assert(s.take(from.len() as int) =~= s.subrange(0, from.len() as int));
        }
        let s1 = s.drop_first();
        assert forall|j: int| !matches_at(s1, from, j) by {
            if matches_at(s1, from, j) {
                assert(s1.subrange(j, j + from.len()) =~= s.subrange(j + 1, j + 1 + from.len()));
                assert(!matches_at(s, from, j + 1));
            }
        }
        lemma_replace_all_absent(s1, from, to);
        assert(seq![s[0]] + s1 =~= s);
    }
}

/// When what replacing gives begins with `u`, and `u` holds no first
/// character of `to`, nothing was replaced within `u`: `s` begins with `u`.
pub proof fn lemma_replace_keeps_prefix(s: Seq<char>, from: Seq<char>, to: Seq<char>, u: Seq<char>)
    requires
        from.len() > 0,
        to.len() > 0,
        !u.contains(to[0]),
        u.len() <= replace_all(s, from, to).len(),
        replace_all(s, from, to).take(u.len() as int) == u,
    ensures
        u.len() <= s.len(),
        s.take(u.len() as int) == u,
    decreases s.len(),
{
    let r = replace_all(s, from, to);
    if u.len() == 0 {
        assert(s.take(0) =~= u);
    } else if s.len() == 0 {
    } else if from.len() <= s.len() && s.take(from.len() as int) == from {
        assert(r == to + replace_all(s.skip(from.len() as int), from, to));
        assert(r[0] == to[0]);
        assert(u[0] == r.take(u.len() as int)[0]);
        assert(u.contains(u[0]));
    } else {
        let s1 = s.drop_first();
        let r1 = replace_all(s1, from, to);
        assert(r == seq![s[0]] + r1);
        let u1 = u.drop_first();
        assert(r1.take(u1.len() as int) =~= r.take(u.len() as int).drop_first());
        assert forall|c: char| u1.contains(c) implies u.contains(c) by {
            let i = choose|i: int| 0 <= i < u1.len() && u1[i] == c;
            assert(u[i + 1] == c);
        }
        lemma_replace_keeps_prefix(s1, from, to, u1);
        assert(u[0] == r.take(u.len() as int)[0]);
        assert(s.take(u.len() as int) =~= seq![s[0]] + s1.take(u1.len() as int));
        assert(u =~= seq![u[0]] + u1);
    }
}

/// Replacing `from` by `to` makes no occurrence of `pat` that was not there
/// (and leaves none of `from` itself), when no occurrence of `pat` can start
/// inside `to` and the rest of `pat` holds no first character of `to`.
pub proof fn lemma_replace_no_new_occurrence(
    s: Seq<char>,
    from: Seq<char>,
    to: Seq<char>,
    pat: Seq<char>,
)
    requires
        from.len() > 0,
        to.len() > 0,
        pat.len() > 0,
        !pat.drop_first().contains(to[0]),
        forall|j: int| 0 <= j < to.len() ==> !compatible(#[trigger] to.skip(j), pat),
        pat == from || no_occurrence(s, pat),
    ensures
        no_occurrence(replace_all(s, from, to), pat),
    decreases s.len(),
{
    let r = replace_all(s, from, to);
    if s.len() == 0 {
        assert forall|j: int| !matches_at(r, pat, j) by {}
    } else if from.len() <= s.len() && s.take(from.len() as int) == from {
        let n = from.len() as int;
        let s2 = s.skip(n);
        if pat != from {
            assert forall|j: int| !matches_at(s2, pat, j) by {
                if matches_at(s2, pat, j) {
                    assert(s2.subrange(j, j + pat.len()) =~= s.subrange(j + n, j + n + pat.len()));
                    assert(!matches_at(s, pat, j + n));
                }
            }
        }
        lemma_replace_no_new_occurrence(s2, from, to, pat);
        let r2 = replace_all(s2, from, to);
        assert(r == to + r2);
        assert forall|j: int| !matches_at(r, pat, j) by {
            if matches_at(r, pat, j) {
                if j < to.len() {
                    assert forall|k: int| 0 <= k < to.skip(j).len() && k < pat.len() implies to.skip(
                        j,
                    )[k] == pat[k] by {
                        assert(r.subrange(j, j + pat.len())[k] == pat[k]);
                    }
                    assert(!compatible(to.skip(j), pat));
                } else {
                    let j2 = j - to.len();
                    assert(r2.subrange(j2, j2 + pat.len()) =~= r.subrange(j, j + pat.len()));
                    assert(!matches_at(r2, pat, j2));
                }
            }
        }
    } else {
        let s1 = s.drop_first();
        if pat != from {
            assert forall|j: int| !matches_at(s1, pat, j) by {
                if matches_at(s1, pat, j) {
                    assert(s1.subrange(j, j + pat.len()) =~= s.subrange(j + 1, j + 1 + pat.len()));
                    assert(!matches_at(s, pat, j + 1));
                }
            }
        }
        lemma_replace_no_new_occurrence(s1, from, to, pat);
        let r1 = replace_all(s1, from, to);
        assert(r == seq![s[0]] + r1);
        assert forall|j: int| !matches_at(r, pat, j) by {
            if matches_at(r, pat, j) {
                if j >= 1 {
                    assert(r1.subrange(j - 1, j - 1 + pat.len()) =~= r.subrange(j, j + pat.len()));
                    assert(!matches_at(r1, pat, j - 1));
                } else {
                    let u = pat.drop_first();
                    assert(r1.take(u.len() as int) =~= r.subrange(0, pat.len() as int).drop_first());
                    lemma_replace_keeps_prefix(s1, from, to, u);
                    assert(s.subrange(0, pat.len() as int) =~= seq![s[0]] + s1.take(u.len() as int));
                    assert(pat =~= seq![pat[0]] + u);
                    assert(pat[0] == r.subrange(0, pat.len() as int)[0]);
                    assert(matches_at(s, pat, 0));
                    if pat == from {
                        assert(s.take(from.len() as int) =~= s.subrange(0, pat.len() as int));
                    }
                }
            }
        }
    }
}

/// The decimal digit for `d` (below ten).
pub open spec fn digit_char(d: nat) -> char {
    seq!['0', '1', '2', '3', '4', '5', '6', '7', '8', '9'][d as int]
}

/// The decimal notation of `n`, without leading zeros.
pub open spec fn decimal(n: nat) -> Seq<char>
    decreases n,
{
    if n < 10 {
        seq![digit_char(n)]
    } else {
        decimal(n / 10).push(digit_char(n % 10))
    }
}

/// Whether `c` is one of the decimal digits '0' to '9'.
pub open spec fn is_digit_char(c: char) -> bool {
    0x30 <= c as u32 <= 0x39
}

/// The number that a string of decimal digits stands for, read by the
/// characters' codes ('0' is code 0x30).
pub open spec fn digits_value(s: Seq<char>) -> int
    decreases s.len(),
{
    if s.len() == 0 {
        0
    } else {
        digits_value(s.drop_last()) * 10 + (s.last() as u32 - 0x30)
    }
}

/// The digit written for `d` is the character whose code is that of '0'
/// plus `d`.
pub proof fn lemma_digit_char_code(d: nat)
    requires
        d < 10,
    ensures
        digit_char(d) as u32 == 0x30 + d,
{
    if d == 0 {
    } else if d == 1 {
    } else if d == 2 {
    } else if d == 3 {
    } else if d == 4 {
    } else if d == 5 {
    } else if d == 6 {
    } else if d == 7 {
    } else if d == 8 {
    } else {
    }
}

/// Decimal notation is faithful: `decimal(n)` is made of digits, has no
/// leading zero (unless it is "0"), and read back as a number gives `n`.
pub proof fn lemma_decimal_reads_back(n: nat)
    ensures
        decimal(n).len() >= 1,
        forall|i: int| 0 <= i < decimal(n).len() ==> is_digit_char(#[trigger] decimal(n)[i]),
        digits_value(decimal(n)) == n,
        n >= 10 ==> decimal(n)[0] != '0',
    decreases n,
{
    if n < 10 {
        lemma_digit_char_code(n);
        let d = seq![digit_char(n)];
        assert(d.drop_last() =~= Seq::<char>::empty());
        assert(digits_value(d.drop_last()) == 0);
        assert(d.last() as u32 - 0x30 == n);
        assert(digits_value(d) == digits_value(d.drop_last()) * 10 + (d.last() as u32 - 0x30));
    } else {
        lemma_decimal_reads_back(n / 10);
        lemma_digit_char_code(n % 10);
        let d = decimal(n / 10);
        let e = d.push(digit_char(n % 10));
        assert(e.drop_last() =~= d);
        assert(e.last() as u32 - 0x30 == n % 10);
        assert(digits_value(e) == digits_value(d) * 10 + (e.last() as u32 - 0x30));
        assert((n / 10) * 10 + n % 10 == n) by (nonlinear_arith);
        if n / 10 < 10 {
            lemma_digit_char_code(n / 10);
        }
    }
}

/// A leading '0' does not change the number that digits stand for.
pub proof fn lemma_digits_value_leading_zero(s: Seq<char>)
    ensures
        digits_value(seq!['0'] + s) == digits_value(s),
    decreases s.len(),
{
    let z = seq!['0'] + s;
    if s.len() == 0 {
        assert(z.drop_last() =~= Seq::<char>::empty());
        assert(z.last() == '0');
        assert('0' as u32 == 0x30);
        assert(digits_value(z) == digits_value(z.drop_last()) * 10 + (z.last() as u32 - 0x30));
    } else {
        lemma_digits_value_leading_zero(s.drop_last());
        assert(z.drop_last() =~= seq!['0'] + s.drop_last());
        assert(z.last() == s.last());
        assert(digits_value(z) == digits_value(z.drop_last()) * 10 + (z.last() as u32 - 0x30));
    }
}

/// The decimal digit for `d`.
fn digit(d: usize) -> (c: char)
    requires
        d < 10,
    ensures
        c == digit_char(d as nat),
{
    let table: [char; 10] = ['0', '1', '2', '3', '4', '5', '6', '7', '8', '9'];
    assert(table@ =~= seq!['0', '1', '2', '3', '4', '5', '6', '7', '8', '9']);
    table[d]
}

/// The decimal notation of `n`.
pub fn decimal_chars(n: usize) -> (r: Vec<char>)
    ensures
        r@ == decimal(n as nat),
    decreases n,
{
    let c = digit(n % 10);
    if n < 10 {
        let mut v: Vec<char> = Vec::new();
        v.push(c);
        v
    } else {
        let mut v = decimal_chars(n / 10);
        v.push(c);
        v
    }
}

} // verus!
