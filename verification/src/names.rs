//! Names of module members and of the runtime globals that hold module vars.
use vstd::prelude::*;
use crate::text::{
    chars_of, find_char, lemma_find_char_bounds, push_all, push_range, spec_find_char,
    spec_is_ident_continue, spec_starts_at, starts_at, string_from_chars, is_ident_continue,
};

verus! {

/// The marker that opens a resolved variable reference: `__sl_var__(`.
pub open spec fn spec_resolved_var_prefix() -> Seq<char> {
    seq!['_', '_', 's', 'l', '_', 'v', 'a', 'r', '_', '_', '(']
}

/// The prefix of every runtime global name: `__sl_global`.
pub open spec fn spec_runtime_global_prefix() -> Seq<char> {
    seq!['_', '_', 's', 'l', '_', 'g', 'l', 'o', 'b', 'a', 'l']
}

pub fn resolved_var_prefix() -> (v: Vec<char>)
    ensures
        v@ == spec_resolved_var_prefix(),
{
    let v = vec!['_', '_', 's', 'l', '_', 'v', 'a', 'r', '_', '_', '('];
    assert(v@ =~= spec_resolved_var_prefix());
    v
}

/// `module.member`.
pub open spec fn spec_qualified_member_name(module_name: Seq<char>, member_name: Seq<char>) -> Seq<
    char,
> {
    module_name + seq!['.'] + member_name
}

/// A character that may stand in a runtime global name as it is.
pub open spec fn spec_is_global_name_char(c: char) -> bool {
    spec_is_ident_continue(c)
}

/// Every character of `q` that is not an ASCII letter, digit or `_` becomes `_`.
pub open spec fn spec_sanitize_global(q: Seq<char>) -> Seq<char> {
    q.map_values(|c: char| if spec_is_global_name_char(c) { c } else { '_' })
}

/// The runtime global that holds the module var with qualified name `q`.
pub open spec fn spec_runtime_global_name(q: Seq<char>) -> Seq<char> {
    spec_runtime_global_prefix() + spec_sanitize_global(q)
}

/// `__sl_var__(q)`.
pub open spec fn spec_resolved_var_placeholder(q: Seq<char>) -> Seq<char> {
    spec_resolved_var_prefix() + q + seq![')']
}

/// The joined name `module_name.member_name`.
pub fn qualified_member_name(module_name: &str, member_name: &str) -> (r: String)
    ensures
        r@ == spec_qualified_member_name(module_name@, member_name@),
{
    let mut out = chars_of(module_name);
    out.push('.');
    let member = chars_of(member_name);
    push_all(&mut out, &member);
    string_from_chars(&out)
}

fn runtime_global_chars(q: &[char]) -> (r: Vec<char>)
    ensures
        r@ == spec_runtime_global_name(q@),
{
    let mut out = vec!['_', '_', 's', 'l', '_', 'g', 'l', 'o', 'b', 'a', 'l'];
    assert(out@ =~= spec_runtime_global_prefix());
    let mut i: usize = 0;
    while i < q.len()
        invariant
            i <= q@.len(),
            out@ == spec_runtime_global_prefix() + spec_sanitize_global(q@.take(i as int)),
        decreases q@.len() - i,
    {
        let c = q[i];
        if is_ident_continue(c) {
            out.push(c);
        } else {
            out.push('_');
        }
        i = i + 1;
        assert(spec_sanitize_global(q@.take(i as int)) =~= spec_sanitize_global(
            q@.take(i - 1),
        ).push(if spec_is_global_name_char(c) { c } else { '_' }));
    }
    assert(q@.take(q@.len() as int) =~= q@);
    out
}

/// The runtime global name for a module var: `__sl_global` followed by the
/// qualified name with every character other than an ASCII letter, digit or
/// `_` replaced by `_`.
pub fn runtime_global_name(qualified_name: &str) -> (r: String)
    ensures
        r@ == spec_runtime_global_name(qualified_name@),
{
    let q = chars_of(qualified_name);
    let out = runtime_global_chars(&q);
    string_from_chars(&out)
}

/// The placeholder `__sl_var__(qualified_name)` that marks a resolved var reference.
pub fn resolved_var_placeholder(qualified_name: &str) -> (r: String)
    ensures
        r@ == spec_resolved_var_placeholder(qualified_name@),
{
    let mut out = resolved_var_prefix();
    let q = chars_of(qualified_name);
    push_all(&mut out, &q);
    out.push(')');
    string_from_chars(&out)
}

/// Where a quoted run that opens at `cur - 1` with quote `q` ends (one past
/// the closing quote); a backslash skips the character after it; an
/// unterminated run ends at the end of the source.
pub open spec fn spec_skip_quoted_lenient(s: Seq<char>, cur: int, q: char) -> int
    decreases s.len() - cur,
{
    if cur < 0 || cur >= s.len() {
        s.len() as int
    } else if s[cur] == '\\' {
        if cur + 2 >= s.len() {
            s.len() as int
        } else {
            spec_skip_quoted_lenient(s, cur + 2, q)
        }
    } else if s[cur] == q {
        cur + 1
    } else {
        spec_skip_quoted_lenient(s, cur + 1, q)
    }
}

pub proof fn lemma_skip_quoted_lenient_bounds(s: Seq<char>, cur: int, q: char)
    requires
        0 <= cur,
    ensures
        cur < spec_skip_quoted_lenient(s, cur, q) <= s.len() || (cur >= s.len()
            && spec_skip_quoted_lenient(s, cur, q) == s.len()),
    decreases s.len() - cur,
{
    if cur < s.len() {
        if s[cur] == '\\' {
            if cur + 2 < s.len() {
                lemma_skip_quoted_lenient_bounds(s, cur + 2, q);
            }
        } else if s[cur] != q {
            lemma_skip_quoted_lenient_bounds(s, cur + 1, q);
        }
    }
}

/// End of the quoted run that starts at `start` (one past its closing
/// quote, or the end of the source when it is not closed).
pub fn scan_quoted_lenient(s: &[char], start: usize) -> (end: usize)
    requires
        start < s@.len(),
    ensures
        end == spec_skip_quoted_lenient(s@, start + 1, s@[start as int]),
        start < end <= s@.len(),
{
    let quote = s[start];
    let mut cursor = start + 1;
    proof {
        lemma_skip_quoted_lenient_bounds(s@, start + 1, quote);
    }
    while cursor < s.len()
        invariant
            start < cursor,
            start < s@.len(),
            quote == s@[start as int],
            s@.len() == s.len(),
            spec_skip_quoted_lenient(s@, cursor as int, quote) == spec_skip_quoted_lenient(
                s@,
                start + 1,
                quote,
            ),
        decreases s@.len() - cursor,
    {
        if s[cursor] == '\\' {
            if s.len() - cursor <= 2 {
                return s.len();
            }
            cursor = cursor + 2;
        } else if s[cursor] == quote {
            return cursor + 1;
        } else {
            cursor = cursor + 1;
        }
    }
    s.len()
}

/// The text `src[i..]` with every resolved var placeholder outside quoted
/// strings replaced by the runtime global name it stands for.
pub open spec fn spec_lower_from(s: Seq<char>, i: int) -> Seq<char>
    decreases s.len() - i,
{
    if i < 0 || i >= s.len() {
        Seq::empty()
    } else if s[i] == '"' || s[i] == '\'' {
        let end = spec_skip_quoted_lenient(s, i + 1, s[i]);
        proof {
            lemma_skip_quoted_lenient_bounds(s, i + 1, s[i]);
        }
        s.subrange(i, end) + spec_lower_from(s, end)
    } else if spec_starts_at(s, i, spec_resolved_var_prefix()) && spec_find_char(
        s,
        i + spec_resolved_var_prefix().len(),
        ')',
    ) is Some {
        let start = i + spec_resolved_var_prefix().len();
        let close = spec_find_char(s, start, ')')->0;
        proof {
            lemma_find_char_bounds(s, start, ')');
        }
        spec_runtime_global_name(s.subrange(start, close)) + spec_lower_from(s, close + 1)
    } else {
        seq![spec_first_byte_char(s[i])] + spec_lower_from(s, i + 1)
    }
}

/// The first UTF-8 byte of `c`, read back as a character, for a character of
/// one or two bytes; a longer character is given back as it stands.
pub open spec fn spec_first_byte_char(c: char) -> char {
    let code = c as u32;
    if 0x80 <= code && code < 0x800 {
        ((0xC0 + code / 64) as u8) as char
    } else {
        c
    }
}

/// The first UTF-8 byte of `c` read as a character (see
/// [`spec_first_byte_char`]).
pub fn first_byte_char(c: char) -> (r: char)
    ensures
        r == spec_first_byte_char(c),
{
    let code: u32 = c as u32;
    if 0x80 <= code && code < 0x800 {
        let lead: u8 = (0xC0 + code / 64) as u8;
        lead as char
    } else {
        c
    }
}

/// Replaces every `__sl_var__(name)` placeholder that stands outside a quoted
/// string by the runtime global name of `name`; quoted strings are copied
/// unchanged.
///
/// The text is walked one UTF-8 byte at a time outside quotes: a character of
/// two bytes is written as its first byte read as a character, and the walk
/// goes on after it. A character of three or four bytes would leave the walk
/// inside that character; the contract copies it as it stands, and nothing
/// here makes that byte-level walk total on such text.
pub fn lower_resolved_vars_to_runtime_names(source: &str) -> (r: String)
    ensures
        r@ == spec_lower_from(source@, 0),
{
    let src = chars_of(source);
    let prefix = resolved_var_prefix();
    let mut out: Vec<char> = Vec::new();
    let mut cursor: usize = 0;
    while cursor < src.len()
        invariant
            src@ == source@,
            prefix@ == spec_resolved_var_prefix(),
            cursor <= src@.len(),
            out@ + spec_lower_from(src@, cursor as int) == spec_lower_from(src@, 0),
        decreases src@.len() - cursor,
    {
        let ch = src[cursor];
        if ch == '"' || ch == '\'' {
            let end = scan_quoted_lenient(&src, cursor);
            push_range(&mut out, &src, cursor, end);
            assert(out@ + spec_lower_from(src@, end as int) =~= spec_lower_from(src@, 0));
            cursor = end;
            continue;
        }
        if starts_at(&src, cursor, &prefix) {
            let start = cursor + prefix.len();
            if let Some(close) = find_char(&src, start, ')') {
                proof {
                    lemma_find_char_bounds(src@, start as int, ')');
                }
                let mut name: Vec<char> = Vec::new();
                push_range(&mut name, &src, start, close);
                let g = runtime_global_chars(&name);
                push_all(&mut out, &g);
                assert(name@ =~= src@.subrange(start as int, close as int));
                assert(out@ + spec_lower_from(src@, close + 1) =~= spec_lower_from(src@, 0));
                cursor = close + 1;
                continue;
            }
        }
        out.push(first_byte_char(ch));
        assert(out@ + spec_lower_from(src@, cursor + 1) =~= spec_lower_from(src@, 0));
        cursor = cursor + 1;
    }
    assert(out@ =~= spec_lower_from(src@, 0));
    string_from_chars(&out)
}

} // verus!
