//! Character-level helpers over `Seq<char>` with executable counterparts on `Vec<char>`.
use vstd::prelude::*;

verus! {

/// Unicode whitespace (the `White_Space` property), as used for trimming source lines.
pub open spec fn is_ws(c: char) -> bool {
    ('\u{9}' <= c && c <= '\u{d}') || c == ' ' || c == '\u{85}' || c == '\u{a0}' || c == '\u{1680}'
        || ('\u{2000}' <= c && c <= '\u{200a}') || c == '\u{2028}' || c == '\u{2029}'
        || c == '\u{202f}' || c == '\u{205f}' || c == '\u{3000}'
}

/// Characters that may appear inside an identifier or keyword.
pub open spec fn is_word_char(c: char) -> bool {
    ('a' <= c && c <= 'z') || ('A' <= c && c <= 'Z') || ('0' <= c && c <= '9') || c == '_'
}

/// First index in `[i, b)` that does not hold whitespace, or `b`.
pub open spec fn skip_ws(s: Seq<char>, i: int, b: int) -> int
    decreases b - i,
{
    if i < b && 0 <= i < s.len() && is_ws(s[i]) {
        skip_ws(s, i + 1, b)
    } else {
        i
    }
}

/// End of the run of word characters that starts at `i`, bounded by `b`.
pub open spec fn word_end(s: Seq<char>, i: int, b: int) -> int
    decreases b - i,
{
    if i < b && 0 <= i < s.len() && is_word_char(s[i]) {
        word_end(s, i + 1, b)
    } else {
        i
    }
}

/// Index just past the last non-whitespace character of `[a, b)`, or `a`.
pub open spec fn trim_end(s: Seq<char>, a: int, b: int) -> int
    decreases b - a,
{
    if a < b && 0 <= b - 1 < s.len() && is_ws(s[b - 1]) {
        trim_end(s, a, b - 1)
    } else {
        b
    }
}

/// `p` occurs in `s` at `i` and ends no later than `b`.
pub open spec fn matches_at(s: Seq<char>, i: int, b: int, p: Seq<char>) -> bool {
    0 <= i && i + p.len() <= b && b <= s.len() && s.subrange(i, i + p.len()) == p
}

pub fn is_ws_exec(c: char) -> (r: bool)
    ensures
        r == is_ws(c),
{
    ('\u{9}' <= c && c <= '\u{d}') || c == ' ' || c == '\u{85}' || c == '\u{a0}' || c == '\u{1680}'
        || ('\u{2000}' <= c && c <= '\u{200a}') || c == '\u{2028}' || c == '\u{2029}'
        || c == '\u{202f}' || c == '\u{205f}' || c == '\u{3000}'
}

pub fn is_word_char_exec(c: char) -> (r: bool)
    ensures
        r == is_word_char(c),
{
    ('a' <= c && c <= 'z') || ('A' <= c && c <= 'Z') || ('0' <= c && c <= '9') || c == '_'
}

pub fn skip_ws_exec(s: &Vec<char>, i: usize, b: usize) -> (r: usize)
    requires
        i <= b <= s@.len(),
    ensures
        r as int == skip_ws(s@, i as int, b as int),
        i <= r <= b,
{
    let mut k = i;
    while k < b && is_ws_exec(s[k])
        invariant
            i <= k <= b <= s@.len(),
            skip_ws(s@, k as int, b as int) == skip_ws(s@, i as int, b as int),
        decreases b - k,
    {
        k += 1;
    }
    k
}

pub fn word_end_exec(s: &Vec<char>, i: usize, b: usize) -> (r: usize)
    requires
        i <= b <= s@.len(),
    ensures
        r as int == word_end(s@, i as int, b as int),
        i <= r <= b,
{
    let mut k = i;
    while k < b && is_word_char_exec(s[k])
        invariant
            i <= k <= b <= s@.len(),
            word_end(s@, k as int, b as int) == word_end(s@, i as int, b as int),
        decreases b - k,
    {
        k += 1;
    }
    k
}

pub fn trim_end_exec(s: &Vec<char>, a: usize, b: usize) -> (r: usize)
    requires
        a <= b <= s@.len(),
    ensures
        r as int == trim_end(s@, a as int, b as int),
        a <= r <= b,
{
    let mut k = b;
    while k > a && is_ws_exec(s[k - 1])
        invariant
            a <= k <= b <= s@.len(),
            trim_end(s@, a as int, k as int) == trim_end(s@, a as int, b as int),
        decreases k,
    {
        k -= 1;
    }
    k
}

pub fn matches_at_exec(s: &Vec<char>, i: usize, b: usize, p: &Vec<char>) -> (r: bool)
    requires
        b <= s@.len(),
    ensures
        r == matches_at(s@, i as int, b as int, p@),
{
    if i > b || p.len() > b - i {
        return false;
    }
    let mut k: usize = 0;
    while k < p.len()
        invariant
            i + p@.len() <= b <= s@.len(),
            k <= p@.len(),
            forall|j: int| 0 <= j < k ==> s@[i + j] == p@[j],
        decreases p@.len() - k,
    {
        if s[i + k] != p[k] {
            assert(s@.subrange(i as int, i + p@.len())[k as int] != p@[k as int]);
            return false;
        }
        k += 1;
    }
    assert(s@.subrange(i as int, i + p@.len()) =~= p@);
    true
}

/// The characters of `s`, in order.
pub fn chars_of(s: &str) -> (r: Vec<char>)
    ensures
        r@ == s@,
{
    let mut r: Vec<char> = Vec::new();
    for c in it: s.chars()
        invariant
            r@ == it.seq().subrange(0, it.index() as int),
    {
        r.push(c);
    }
    assert(r@ =~= s@);
    r
}

/// Relies on `String: FromIterator<&char>`: collecting characters yields the
/// string made of exactly those characters, in order.
#[verifier::external_body]
pub(crate) fn string_of(v: &Vec<char>) -> (r: String)
    ensures
        r@ == v@,
{
    v.iter().collect()
}

/// The string made of `s[a..b]`.
pub fn substring(s: &Vec<char>, a: usize, b: usize) -> (r: String)
    requires
        a <= b <= s@.len(),
    ensures
        r@ == s@.subrange(a as int, b as int),
{
    let mut v: Vec<char> = Vec::new();
    let mut k = a;
    while k < b
        invariant
            a <= k <= b <= s@.len(),
            v@ == s@.subrange(a as int, k as int),
        decreases b - k,
    {
        v.push(s[k]);
        k += 1;
        assert(v@ =~= s@.subrange(a as int, k as int));
    }
    string_of(&v)
}

} // verus!
