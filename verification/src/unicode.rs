//! Character properties and conversions of the Unicode standard. White
//! space is a short list and is stated here; the other properties and the
//! lower-case mappings come from the standard library's Unicode tables, and
//! their results are named, not restated.

use vstd::prelude::*;

verus! {

/// Whether `c` has the Unicode White_Space property (what
/// `char::is_whitespace` tests): U+0009 to U+000D, U+0020, U+0085, U+00A0,
/// U+1680, U+2000 to U+200A, U+2028, U+2029, U+202F, U+205F and U+3000.
pub open spec fn char_is_whitespace(c: char) -> bool {
    let n = c as u32;
    ||| 0x09 <= n <= 0x0d
    ||| n == 0x20
    ||| n == 0x85
    ||| n == 0xa0
    ||| n == 0x1680
    ||| 0x2000 <= n <= 0x200a
    ||| n == 0x2028
    ||| n == 0x2029
    ||| n == 0x202f
    ||| n == 0x205f
    ||| n == 0x3000
}

/// Whether `char::is_alphanumeric` holds of `c`.
pub uninterp spec fn char_is_alphanumeric(c: char) -> bool;

/// The characters that `char::to_lowercase` yields for `c`.
pub uninterp spec fn char_lowercase(c: char) -> Seq<char>;

/// Whether `c` is an ASCII digit or letter.
pub open spec fn ascii_alnum(c: char) -> bool {
    let n = c as u32;
    ||| 0x30 <= n <= 0x39
    ||| 0x41 <= n <= 0x5a
    ||| 0x61 <= n <= 0x7a
}

/// `l` is the lower-case form of the ASCII character `c`: for A to Z the
/// one character 32 code points on (a to z), for every other character `c`
/// itself.
pub open spec fn ascii_lowercase_is(c: char, l: Seq<char>) -> bool {
    if 0x41 <= c as u32 <= 0x5a {
        l.len() == 1 && l[0] as u32 == c as u32 + 32
    } else {
        l == seq![c]
    }
}

/// How `char::is_alphanumeric` and `char::to_lowercase` behave on ASCII
/// characters, as the Unicode standard they follow has it: the letters and
/// digits are alphanumeric and nothing else is, and each character lowers
/// to one character, A to Z to a to z and every other to itself. The
/// wrappers below state it of each character they are called on.
pub open spec fn ascii_case_facts() -> bool {
    forall|c: char|
        #![trigger char_is_alphanumeric(c)]
        #![trigger char_lowercase(c)]
        (c as u32) < 128 ==> {
            &&& char_is_alphanumeric(c) == ascii_alnum(c)
            &&& ascii_lowercase_is(c, char_lowercase(c))
        }
}

/// What `str::to_lowercase` returns for `s`.
pub uninterp spec fn str_lowercase(s: Seq<char>) -> Seq<char>;

/// Every character of `s` is ASCII.
pub open spec fn is_ascii_seq(s: Seq<char>) -> bool {
    forall|i: int| 0 <= i < s.len() ==> (#[trigger] s[i] as u32) < 128
}

/// `l` is the ASCII string `s` with each character lower-cased, one for one.
pub open spec fn ascii_lowercase_seq(s: Seq<char>, l: Seq<char>) -> bool {
    &&& l.len() == s.len()
    &&& forall|i: int| 0 <= i < s.len() ==> ascii_lowercase_is(#[trigger] s[i], seq![l[i]])
}

/// How `char::is_alphanumeric` and `char::to_lowercase` behave on the ASCII
/// characters below code `n` (see `ascii_case_facts`).
pub open spec fn ascii_case_facts_below(n: u32) -> bool {
    forall|c: char|
        #![trigger char_is_alphanumeric(c)]
        #![trigger char_lowercase(c)]
        (c as u32) < n ==> {
            &&& char_is_alphanumeric(c) == ascii_alnum(c)
            &&& ascii_lowercase_is(c, char_lowercase(c))
        }
}

/// Two characters with the same code are the same character.
proof fn lemma_char_code_injective(c: char, d: char)
    requires
        c as u32 == d as u32,
    ensures
        c == d,
{
}

/// Calls `char::is_alphanumeric` and `char::to_lowercase` on every ASCII
/// character; what they return establishes `ascii_case_facts`.
pub fn check_ascii_case_facts()
    ensures
        ascii_case_facts(),
{
    let mut n: u8 = 0;
    while n < 128
        invariant
            n <= 128,
            ascii_case_facts_below(n as u32),
        decreases 128 - n,
    {
        let c = n as char;
        assert(c as u32 == n as u32);
        let _ = is_alphanumeric(c);
        let _ = lowercase_char(c);
        assert forall|d: char|
            #![trigger char_is_alphanumeric(d)]
            #![trigger char_lowercase(d)]
            (d as u32) < n + 1 implies {
                &&& char_is_alphanumeric(d) == ascii_alnum(d)
                &&& ascii_lowercase_is(d, char_lowercase(d))
            } by {
            if d as u32 == n as u32 {
                lemma_char_code_injective(c, d);
            }
        }
        n = n + 1;
    }
    assert(ascii_case_facts_below(128));
}

/// Whether `c` has the White_Space property.
pub fn is_whitespace(c: char) -> (r: bool)
    ensures
        r == char_is_whitespace(c),
{
    let n = c as u32;
    (0x09 <= n && n <= 0x0d) || n == 0x20 || n == 0x85 || n == 0xa0 || n == 0x1680 || (0x2000
        <= n && n <= 0x200a) || n == 0x2028 || n == 0x2029 || n == 0x202f || n == 0x205f || n
        == 0x3000
}

/// Calls `char::is_alphanumeric`; the result is the named property of `c`,
/// and for an ASCII character whether it is a letter or a digit.
#[verifier::external_body]
pub(crate) fn is_alphanumeric(c: char) -> (r: bool)
    ensures
        r == char_is_alphanumeric(c),
        (c as u32) < 128 ==> r == ascii_alnum(c),
{
    c.is_alphanumeric()
}

/// Calls `char::to_lowercase` and collects what it yields: the named
/// mapping of `c`, for an ASCII character one character, its lower-case
/// form.
#[verifier::external_body]
pub(crate) fn lowercase_char(c: char) -> (r: Vec<char>)
    ensures
        r@ == char_lowercase(c),
        (c as u32) < 128 ==> ascii_lowercase_is(c, r@),
{
    c.to_lowercase().collect()
}

/// Calls `str::to_lowercase`: the named result, and for an ASCII string
/// the string of the lower-case forms of its characters, one for one.
#[verifier::external_body]
pub(crate) fn lowercase_str(s: &str) -> (r: String)
    ensures
        r@ == str_lowercase(s@),
        is_ascii_seq(s@) ==> ascii_lowercase_seq(s@, r@),
{
    s.to_lowercase()
}

/// The characters of `s`, in order.
pub(crate) fn chars_of(s: &str) -> (r: Vec<char>)
    ensures
        r@ == s@,
{
    broadcast use vstd::string::axiom_spec_iter;
    let mut out: Vec<char> = Vec::new();
    for c in it: s.chars()
        invariant
            it.seq() == s@,
            out@ == it.seq().take(it.index()),
    {
        assert(it.seq().take(it.index() + 1) =~= out@.push(c));
        out.push(c);
    }
    out
}

/// Builds a `String` from `cs` through `String`'s `FromIterator<&char>`
/// (`collect`); the string holds the characters in order.
#[verifier::external_body]
pub(crate) fn string_from_chars(cs: &[char]) -> (r: String)
    ensures
        r@ == cs@,
{
    cs.iter().collect()
}

} // verus!
