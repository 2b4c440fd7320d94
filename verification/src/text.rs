//! Character-level helpers shared by the scanners and rewriters.
//!
//! Source text is handled as a sequence of `char`s: every pass copies the
//! characters it does not rewrite unchanged.
use vstd::prelude::*;

verus! {

/// `_` or an ASCII letter.
pub open spec fn spec_is_ident_start(c: char) -> bool {
    c == '_' || ('a' <= c && c <= 'z') || ('A' <= c && c <= 'Z')
}

/// `_`, an ASCII letter or an ASCII digit.
pub open spec fn spec_is_ident_continue(c: char) -> bool {
    spec_is_ident_start(c) || spec_is_ascii_digit(c)
}

pub open spec fn spec_is_ascii_digit(c: char) -> bool {
    '0' <= c && c <= '9'
}

/// The Unicode `White_Space` property, as `char::is_whitespace` defines it.
pub open spec fn spec_is_whitespace(c: char) -> bool {
    ||| ('\t' <= c && c <= '\r')
    ||| c == ' '
    ||| c == '\u{85}'
    ||| c == '\u{a0}'
    ||| c == '\u{1680}'
    ||| ('\u{2000}' <= c && c <= '\u{200a}')
    ||| c == '\u{2028}'
    ||| c == '\u{2029}'
    ||| c == '\u{202f}'
    ||| c == '\u{205f}'
    ||| c == '\u{3000}'
}

/// White space as a single byte of UTF-8 text sees it when the byte is read
/// as a character: tab through carriage return, and space.
pub open spec fn spec_is_byte_space(c: char) -> bool {
    let n = c as u32;
    (9 <= n && n <= 13) || n == 32
}

/// Whether `c` is white space in the sense of [`spec_is_byte_space`].
pub fn is_byte_space(c: char) -> (b: bool)
    ensures
        b == spec_is_byte_space(c),
{
    let n: u32 = c as u32;
    (9 <= n && n <= 13) || n == 32
}

/// Whether `c` may start an identifier.
pub fn is_ident_start(c: char) -> (b: bool)
    ensures
        b == spec_is_ident_start(c),
{
    c == '_' || ('a' <= c && c <= 'z') || ('A' <= c && c <= 'Z')
}

/// Whether `c` may continue an identifier.
pub fn is_ident_continue(c: char) -> (b: bool)
    ensures
        b == spec_is_ident_continue(c),
{
    is_ident_start(c) || ('0' <= c && c <= '9')
}

/// Whether `c` is an ASCII digit.
pub fn is_ascii_digit(c: char) -> (b: bool)
    ensures
        b == spec_is_ascii_digit(c),
{
    '0' <= c && c <= '9'
}

/// Whether `c` is white space in the Unicode sense.
pub fn is_whitespace(c: char) -> (b: bool)
    ensures
        b == spec_is_whitespace(c),
{
    ('\t' <= c && c <= '\r') || c == ' ' || c == '\u{85}' || c == '\u{a0}' || c == '\u{1680}'
        || ('\u{2000}' <= c && c <= '\u{200a}') || c == '\u{2028}' || c == '\u{2029}' || c
        == '\u{202f}' || c == '\u{205f}' || c == '\u{3000}'
}

/// Copies the characters of `s` into a vector.
pub fn chars_of(s: &str) -> (v: Vec<char>)
    ensures
        v@ == s@,
{
    let mut v: Vec<char> = Vec::new();
    for c in it: s.chars()
        invariant
            v@ == it.seq().take(it.index() as int),
    {
        v.push(c);
    }
    v
}

/// `String::push`: appends one character.
#[verifier::external_body]
fn string_push(s: &mut String, c: char)
    ensures
        final(s)@ == old(s)@.push(c),
{
    s.push(c);
}

/// Builds a string holding exactly the given characters.
pub fn string_from_chars(v: &[char]) -> (s: String)
    ensures
        s@ == v@,
{
    let mut s = String::new();
    let mut i: usize = 0;
    while i < v.len()
        invariant
            i <= v@.len(),
            s@ == v@.take(i as int),
        decreases v@.len() - i,
    {
        string_push(&mut s, v[i]);
        i = i + 1;
        assert(v@.take(i as int) =~= v@.take(i - 1).push(v@[i - 1]));
    }
    assert(v@.take(v@.len() as int) =~= v@);
    s
}

/// Appends `src[start..end]` to `out`.
pub fn push_range(out: &mut Vec<char>, src: &[char], start: usize, end: usize)
    requires
        start <= end <= src@.len(),
    ensures
        final(out)@ == old(out)@ + src@.subrange(start as int, end as int),
{
    let mut i = start;
    while i < end
        invariant
            start <= i <= end <= src@.len(),
            out@ == old(out)@ + src@.subrange(start as int, i as int),
        decreases end - i,
    {
        out.push(src[i]);
        i = i + 1;
        assert(src@.subrange(start as int, i as int) =~= src@.subrange(start as int, i - 1).push(
            src@[i - 1],
        ));
    }
}

/// Appends all of `src` to `out`.
pub fn push_all(out: &mut Vec<char>, src: &[char])
    ensures
        final(out)@ == old(out)@ + src@,
{
    push_range(out, src, 0, src.len());
    assert(src@.subrange(0, src@.len() as int) =~= src@);
}

/// Whether `src[at..]` begins with `pat`.
pub open spec fn spec_starts_at(src: Seq<char>, at: int, pat: Seq<char>) -> bool {
    0 <= at && at + pat.len() <= src.len() && src.subrange(at, at + pat.len()) == pat
}

/// Whether `src[at..]` begins with `pat`.
pub fn starts_at(src: &[char], at: usize, pat: &[char]) -> (b: bool)
    ensures
        b == spec_starts_at(src@, at as int, pat@),
{
    if at > src.len() || pat.len() > src.len() - at {
        return false;
    }
    let mut i: usize = 0;
    while i < pat.len()
        invariant
            at + pat@.len() <= src@.len() == src.len(),
            i <= pat@.len(),
            forall|k: int| 0 <= k < i ==> src@[at + k] == pat@[k],
        decreases pat@.len() - i,
    {
        if src[at + i] != pat[i] {
            assert(src@.subrange(at as int, at + pat@.len())[i as int] != pat@[i as int]);
            return false;
        }
        i = i + 1;
    }
    assert(src@.subrange(at as int, at + pat@.len()) =~= pat@);
    true
}

/// First index at or after `from` that holds `c`.
pub open spec fn spec_find_char(src: Seq<char>, from: int, c: char) -> Option<int>
    decreases src.len() - from,
{
    if from < 0 || from >= src.len() {
        None
    } else if src[from] == c {
        Some(from)
    } else {
        spec_find_char(src, from + 1, c)
    }
}

pub proof fn lemma_find_char_bounds(src: Seq<char>, from: int, c: char)
    requires
        0 <= from,
    ensures
        spec_find_char(src, from, c) matches Some(k) ==> from <= k < src.len() && src[k] == c,
        spec_find_char(src, from, c) is None ==> forall|k: int| from <= k < src.len() ==> src[k]
            != c,
    decreases src.len() - from,
{
    if from < src.len() && src[from] != c {
        lemma_find_char_bounds(src, from + 1, c);
    }
}

/// First index at or after `from` that holds `c`.
pub fn find_char(src: &[char], from: usize, c: char) -> (r: Option<usize>)
    ensures
        r matches Some(k) ==> spec_find_char(src@, from as int, c) == Some(k as int),
        r is None ==> spec_find_char(src@, from as int, c) is None,
    decreases src@.len() - from,
{
    if from >= src.len() {
        None
    } else if src[from] == c {
        Some(from)
    } else {
        find_char(src, from + 1, c)
    }
}

} // verus!

verus! {

/// First index at or after `i` that is not white space.
pub open spec fn spec_trim_start(s: Seq<char>, i: int) -> int
    decreases s.len() - i,
{
    if i < 0 || i >= s.len() || !spec_is_whitespace(s[i]) {
        i
    } else {
        spec_trim_start(s, i + 1)
    }
}

/// One past the last index before `j` that is not white space (at least `lo`).
pub open spec fn spec_trim_end(s: Seq<char>, lo: int, j: int) -> int
    decreases j - lo,
{
    if j <= lo || j > s.len() || !spec_is_whitespace(s[j - 1]) {
        j
    } else {
        spec_trim_end(s, lo, j - 1)
    }
}

pub proof fn lemma_trim_start(s: Seq<char>, i: int)
    requires
        0 <= i <= s.len(),
    ensures
        i <= spec_trim_start(s, i) <= s.len(),
    decreases s.len() - i,
{
    if i < s.len() && spec_is_whitespace(s[i]) {
        lemma_trim_start(s, i + 1);
    }
}

pub proof fn lemma_trim_end(s: Seq<char>, i: int, j: int)
    requires
        0 <= i <= j <= s.len(),
    ensures
        i <= spec_trim_end(s, i, j) <= j,
    decreases j - i,
{
    if j > i && spec_is_whitespace(s[j - 1]) {
        lemma_trim_end(s, i, j - 1);
    }
}

/// `s` without leading and trailing white space, as `str::trim` gives it.
pub open spec fn spec_trim(s: Seq<char>) -> Seq<char> {
    let a = spec_trim_start(s, 0);
    s.subrange(a, spec_trim_end(s, a, s.len() as int))
}

/// `src[start..end]` without leading and trailing white space.
pub fn trim_range(src: &[char], start: usize, end: usize) -> (r: Vec<char>)
    requires
        start <= end <= src@.len(),
    ensures
        r@ == spec_trim(src@.subrange(start as int, end as int)),
{
    let ghost s = src@.subrange(start as int, end as int);
    let mut a = start;
    proof {
        lemma_trim_start(s, 0);
    }
    while a < end && is_whitespace(src[a])
        invariant
            start <= a <= end <= src@.len(),
            s == src@.subrange(start as int, end as int),
            spec_trim_start(s, a - start) == spec_trim_start(s, 0),
        decreases end - a,
    {
        a = a + 1;
    }
    let ghost a0 = a - start;
    proof {
        lemma_trim_end(s, a0, s.len() as int);
    }
    let mut b = end;
    while b > a && is_whitespace(src[b - 1])
        invariant
            start <= a <= b <= end <= src@.len(),
            s == src@.subrange(start as int, end as int),
            a0 == a - start,
            spec_trim_end(s, a0, b - start) == spec_trim_end(s, a0, s.len() as int),
        decreases b - a,
    {
        b = b - 1;
    }
    let mut out: Vec<char> = Vec::new();
    push_range(&mut out, src, a, b);
    assert(out@ =~= s.subrange(a0, b - start));
    out
}

} // verus!
