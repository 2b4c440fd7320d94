//! Rewriting of identifiers in expression text.
use vstd::prelude::*;
use crate::collections::{NameMap, NameSet, compare_names};
use crate::const_eval::{
    ConstLookup, QualifiedConstLookup, QualifiedLookupView, spec_env_get, spec_env_view, spec_join_dots,
};
use crate::const_value::{ConstValue, ConstView, debug_str, spec_debug_str, spec_rhai_literal};
use crate::errors::ErrorView;
use crate::expr::template::{SegmentView, TextSegment, TextTemplate};
use crate::errors::ScriptLangError;
use crate::expr::scan::{
    lemma_literal_end, lemma_reference_path, lemma_skip_quoted, scan_expr_source, scan_quoted,
    scan_reference_path, spec_literal_end, spec_reference_path, spec_scan_tokens, spec_skip_quoted,
};
use crate::expr::types::{ExprKind};
use crate::resolve::{ResolverView, ScopeResolver};
use crate::text::is_ident_continue;
use crate::text::{
    chars_of, is_byte_space, is_ident_start, is_whitespace, push_all, push_range,
    spec_is_byte_space, spec_is_ident_start, spec_is_whitespace, string_from_chars,
};

use crate::names::{first_byte_char, spec_first_byte_char};
use vstd::utf8::{
    char_is_scalar, char_u32_cast, encode_scalar, encode_utf8, has_width_1_encoding, has_width_2_encoding,
    has_width_3_encoding, last_continuation_byte, leading_byte_width_1, leading_byte_width_2,
    leading_byte_width_3, leading_byte_width_4, second_last_continuation_byte,
    third_last_continuation_byte,
};

verus! {

/// Index of the last character before `i` that is not white space in the
/// sense of [`spec_is_byte_space`].
pub open spec fn spec_prev_non_ws(s: Seq<char>, i: int) -> Option<int>
    decreases i,
{
    if i <= 0 || i > s.len() {
        None
    } else if !spec_is_byte_space(s[i - 1]) {
        Some(i - 1)
    } else {
        spec_prev_non_ws(s, i - 1)
    }
}

/// Whether the identifier that starts at `i` follows a `.` (with only white
/// space between): a property name, not a variable.
pub open spec fn spec_is_property_access(s: Seq<char>, i: int) -> bool {
    match spec_prev_non_ws(s, i) {
        Some(k) => s[k] == '.',
        None => false,
    }
}

/// Whether byte `b`, read as a character (U+0000 to U+00FF), is white space:
/// tab through carriage return, space, U+0085 and U+00A0.
pub open spec fn spec_byte_reads_as_space(b: u8) -> bool {
    (0x09 <= b && b <= 0x0D) || b == 0x20 || b == 0x85 || b == 0xA0
}

/// Whether, going back from byte `j` of `b` over the bytes that are white
/// space when each is read as a character, the first other byte is `.`.
pub open spec fn spec_byte_property_access(b: Seq<u8>, j: int) -> bool
    decreases j,
{
    if j <= 0 || j > b.len() {
        false
    } else if spec_byte_reads_as_space(b[j - 1]) {
        spec_byte_property_access(b, j - 1)
    } else {
        b[j - 1] == 0x2Eu8
    }
}

proof fn lemma_byte_scan_prefix(b: Seq<u8>, c: Seq<u8>, j: int)
    requires
        j <= b.len(),
    ensures
        spec_byte_property_access(b + c, j) == spec_byte_property_access(b, j),
    decreases j,
{
    if j > 0 {
        assert((b + c)[j - 1] == b[j - 1]);
        lemma_byte_scan_prefix(b, c, j - 1);
    }
}

proof fn lemma_encode_concat(a: Seq<char>, b: Seq<char>)
    ensures
        encode_utf8(a + b) == encode_utf8(a) + encode_utf8(b),
    decreases a.len(),
{
    if a.len() == 0 {
        assert(a + b =~= b);
        assert(encode_utf8(a) + encode_utf8(b) =~= encode_utf8(b));
    } else {
        lemma_encode_concat(a.drop_first(), b);
        assert((a + b).drop_first() =~= a.drop_first() + b);
        assert((a + b)[0] == a[0]);
        assert(encode_utf8(a) + encode_utf8(b) =~= encode_scalar(a[0] as u32) + (encode_utf8(
            a.drop_first(),
        ) + encode_utf8(b)));
    }
}

proof fn lemma_encode_push(a: Seq<char>, c: char)
    ensures
        encode_utf8(a.push(c)) == encode_utf8(a) + encode_scalar(c as u32),
{
    lemma_encode_concat(a, seq![c]);
    assert(a.push(c) =~= a + seq![c]);
    assert(seq![c].drop_first() =~= Seq::<char>::empty());
    assert(encode_utf8(Seq::<char>::empty()) =~= Seq::<u8>::empty());
    assert(seq![c][0] == c);
    assert(encode_utf8(seq![c]) =~= encode_scalar(c as u32));
}

proof fn lemma_width_1_byte(v: u32)
    by (bit_vector)
    requires
        has_width_1_encoding(v),
    ensures
        leading_byte_width_1(v) as u32 == v,
{
}

proof fn lemma_width_2_bytes(v: u32)
    by (bit_vector)
    requires
        has_width_2_encoding(v),
    ensures
        0xC2 <= leading_byte_width_2(v) <= 0xDF,
        0x80 <= last_continuation_byte(v) <= 0xBF,
{
}

proof fn lemma_width_3_bytes(v: u32)
    by (bit_vector)
    requires
        has_width_3_encoding(v),
    ensures
        0xE0 <= leading_byte_width_3(v) <= 0xEF,
        0x80 <= second_last_continuation_byte(v) <= 0xBF,
        0x80 <= last_continuation_byte(v) <= 0xBF,
{
}

proof fn lemma_width_4_bytes(v: u32)
    by (bit_vector)
    requires
        0x10000 <= v <= 0x10FFFF,
    ensures
        0xF0 <= leading_byte_width_4(v) <= 0xF4,
        0x80 <= third_last_continuation_byte(v) <= 0xBF,
        0x80 <= second_last_continuation_byte(v) <= 0xBF,
        0x80 <= last_continuation_byte(v) <= 0xBF,
{
}

proof fn lemma_property_access_prefix_bytes(s: Seq<char>, i: int)
    requires
        0 <= i <= s.len(),
    ensures
        spec_is_property_access(s, i) == spec_byte_property_access(
            encode_utf8(s.take(i)),
            encode_utf8(s.take(i)).len() as int,
        ),
    decreases i,
{
    let p = encode_utf8(s.take(i));
    if i > 0 {
        let q = encode_utf8(s.take(i - 1));
        let c = s[i - 1];
        let v = c as u32;
        let e = encode_scalar(v);
        assert(s.take(i) =~= s.take(i - 1).push(c));
        lemma_encode_push(s.take(i - 1), c);
        assert(p == q + e);
        lemma_property_access_prefix_bytes(s, i - 1);
        lemma_byte_scan_prefix(q, e, q.len() as int);
        char_is_scalar(c);
        let k = q.len() as int;
        if has_width_1_encoding(v) {
            lemma_width_1_byte(v);
            assert(p.len() == k + 1);
            assert(p[k] as u32 == v);
            if spec_is_byte_space(c) {
                assert(spec_byte_reads_as_space(p[k]));
                assert(spec_byte_property_access(p, k + 1) == spec_byte_property_access(p, k));
                assert(spec_prev_non_ws(s, i) == spec_prev_non_ws(s, i - 1));
            } else {
                assert(!spec_byte_reads_as_space(p[k]));
                assert(p[k] == 0x2Eu8 <==> c == '.') by {
                    char_u32_cast(c, v);
                };
                assert(spec_byte_property_access(p, k + 1) == (p[k] == 0x2Eu8));
                assert(spec_prev_non_ws(s, i) == Some(i - 1));
            }
        } else {
            assert(spec_prev_non_ws(s, i) == Some(i - 1));
            if has_width_2_encoding(v) {
                lemma_width_2_bytes(v);
                assert(p.len() == k + 2);
                assert(p[k] == e[0] && p[k + 1] == e[1]);
                assert(!spec_byte_property_access(p, k + 1));
                assert(!spec_byte_property_access(p, k + 2));
            } else if has_width_3_encoding(v) {
                lemma_width_3_bytes(v);
                assert(p.len() == k + 3);
                assert(p[k] == e[0] && p[k + 1] == e[1] && p[k + 2] == e[2]);
                assert(!spec_byte_property_access(p, k + 1));
                assert(!spec_byte_property_access(p, k + 2));
                assert(!spec_byte_property_access(p, k + 3));
            } else {
                lemma_width_4_bytes(v);
                assert(p.len() == k + 4);
                assert(p[k] == e[0] && p[k + 1] == e[1] && p[k + 2] == e[2] && p[k + 3] == e[3]);
                assert(!spec_byte_property_access(p, k + 1));
                assert(!spec_byte_property_access(p, k + 2));
                assert(!spec_byte_property_access(p, k + 3));
                assert(!spec_byte_property_access(p, k + 4));
            }
        }
    } else {
        assert(s.take(0) =~= Seq::<char>::empty());
    }
}

/// The property scan over characters is the scan over the UTF-8 bytes of the
/// text, started at the byte where character `i` begins.
pub proof fn lemma_property_access_reads_utf8_bytes(s: Seq<char>, i: int)
    requires
        0 <= i <= s.len(),
    ensures
        spec_is_property_access(s, i) == spec_byte_property_access(
            encode_utf8(s),
            encode_utf8(s.take(i)).len() as int,
        ),
{
    lemma_property_access_prefix_bytes(s, i);
    assert(s =~= s.take(i) + s.skip(i));
    lemma_encode_concat(s.take(i), s.skip(i));
    lemma_byte_scan_prefix(encode_utf8(s.take(i)), encode_utf8(s.skip(i)), encode_utf8(s.take(i)).len() as int);
}

/// Index of the first character at or after `i` that is not white space.
pub open spec fn spec_next_non_ws(s: Seq<char>, i: int) -> Option<int>
    decreases s.len() - i,
{
    if i < 0 || i >= s.len() {
        None
    } else if !spec_is_whitespace(s[i]) {
        Some(i)
    } else {
        spec_next_non_ws(s, i + 1)
    }
}

/// Whether the identifier that ends at `end` is followed by `:` (with only
/// white space between): an object key.
pub open spec fn spec_is_map_key(s: Seq<char>, end: int) -> bool {
    match spec_next_non_ws(s, end) {
        Some(k) => s[k] == ':',
        None => false,
    }
}

/// Whether the identifier that starts at `ident_start` is a property name.
///
/// The scan goes back over the UTF-8 bytes of the text and reads each byte
/// as a character. Only the ASCII bytes tab through carriage return and space
/// read as white space; every other ASCII character decides at once. A
/// non-ASCII character always ends the scan with `false`: its last bytes are
/// continuation bytes (0x80 to 0xBF), which read as white space only for 0x85
/// and 0xA0 and otherwise decide `false`, and its lead byte (0xC2 or above) is
/// neither white space nor `.`. Over characters that is: skip
/// [`spec_is_byte_space`], and `true` exactly when the first other character
/// is `.`. So a no-break space between the `.` and the name gives `false`.
pub fn is_property_access(src: &[char], ident_start: usize) -> (b: bool)
    requires
        ident_start <= src@.len(),
    ensures
        b == spec_is_property_access(src@, ident_start as int),
{
    let mut cursor = ident_start;
    while cursor > 0
        invariant
            cursor <= ident_start <= src@.len(),
            spec_prev_non_ws(src@, cursor as int) == spec_prev_non_ws(src@, ident_start as int),
        decreases cursor,
    {
        cursor = cursor - 1;
        let ch = src[cursor];
        if is_byte_space(ch) {
            continue;
        }
        return ch == '.';
    }
    false
}

/// Whether the identifier that ends at `ident_end` is an object key.
pub fn is_map_key(src: &[char], ident_end: usize) -> (b: bool)
    requires
        ident_end <= src@.len(),
    ensures
        b == spec_is_map_key(src@, ident_end as int),
{
    let mut cursor = ident_end;
    while cursor < src.len()
        invariant
            ident_end <= cursor <= src@.len(),
            src@.len() == src.len(),
            spec_next_non_ws(src@, cursor as int) == spec_next_non_ws(src@, ident_end as int),
        decreases src@.len() - cursor,
    {
        let ch = src[cursor];
        if is_whitespace(ch) {
            cursor = cursor + 1;
            continue;
        }
        return ch == ':';
    }
    false
}

/// The text `s[i..]` with each plain identifier that `renames` maps renamed.
/// Quoted strings, property names, object keys and dotted paths stay.
pub open spec fn spec_rename_from(s: Seq<char>, i: int, renames: NameMap<String>) -> Result<
    Seq<char>,
    ScriptLangError,
>
    decreases s.len() - i,
{
    if i < 0 || i >= s.len() {
        Ok(Seq::empty())
    } else if s[i] == '"' || s[i] == '\'' {
        proof {
            lemma_skip_quoted(s, i + 1, s[i]);
        }
        match spec_skip_quoted(s, i + 1, s[i]) {
            Some(end) => match spec_rename_from(s, end, renames) {
                Ok(rest) => Ok(s.subrange(i, end) + rest),
                Err(e) => Err(e),
            },
            None => Err(ScriptLangError::UnterminatedStringLiteral),
        }
    } else if spec_is_ident_start(s[i]) {
        let path = spec_reference_path(s, i);
        proof {
            lemma_reference_path(s, i);
        }
        let raw = s.subrange(i, path.0);
        let piece = if spec_is_property_access(s, i) || spec_is_map_key(s, path.0) || path.1.len()
            > 1 {
            raw
        } else {
            match renames.spec_get(path.1[0]) {
                Some(r) => r@,
                None => raw,
            }
        };
        match spec_rename_from(s, path.0, renames) {
            Ok(rest) => Ok(piece + rest),
            Err(e) => Err(e),
        }
    } else {
        match spec_rename_from(s, i + 1, renames) {
            Ok(rest) => Ok(seq![spec_first_byte_char(s[i])] + rest),
            Err(e) => Err(e),
        }
    }
}

/// The text with each plain identifier that `renames` maps renamed; an
/// empty `renames` returns the text as it is.
pub open spec fn spec_rewrite_expr_idents(s: Seq<char>, renames: NameMap<String>) -> Result<
    Seq<char>,
    ScriptLangError,
> {
    if renames.entries@.len() == 0 {
        Ok(s)
    } else {
        spec_rename_from(s, 0, renames)
    }
}

/// Renames plain identifiers: each identifier that is not a property name,
/// not an object key and not part of a dotted path, and that `renames`
/// maps, is replaced; quoted strings are copied unchanged.
///
/// Outside quotes the text is walked one UTF-8 byte at a time, so a character
/// of two bytes is written as its first byte read as a character
/// ([`spec_first_byte_char`]); longer characters are copied as they stand.
pub fn rewrite_expr_idents(source: &str, renames: &NameMap<String>) -> (r: Result<String, ScriptLangError>)
    requires
        renames.wf(),
    ensures
        r matches Ok(out) ==> spec_rewrite_expr_idents(source@, *renames) == Ok::<Seq<char>, ScriptLangError>(out@),
        r matches Err(e) ==> spec_rewrite_expr_idents(source@, *renames) == Err::<Seq<char>, ScriptLangError>(e),
{
    let src = chars_of(source);
    if renames.len() == 0 {
        return Ok(string_from_chars(&src));
    }
    let mut out: Vec<char> = Vec::new();
    let mut cursor: usize = 0;
    while cursor < src.len()
        invariant
            src@ == source@,
            renames.wf(),
            renames.entries@.len() > 0,
            cursor <= src@.len(),
            match spec_rename_from(src@, cursor as int, *renames) {
                Ok(rest) => spec_rename_from(src@, 0, *renames) == Ok::<Seq<char>, ScriptLangError>(out@ + rest),
                Err(e) => spec_rename_from(src@, 0, *renames) == Err::<Seq<char>, ScriptLangError>(e),
            },
        decreases src@.len() - cursor,
    {
        let ghost old_out = out@;
        let ch = src[cursor];
        if ch == '"' || ch == '\'' {
            let end = match scan_quoted(&src, cursor) {
                Ok(end) => end,
                Err(e) => {
                    return Err(e);
                },
            };
            proof {
                lemma_skip_quoted(src@, cursor + 1, ch);
            }
            push_range(&mut out, &src, cursor, end);
            proof {
                match spec_rename_from(src@, end as int, *renames) {
                    Ok(rest) => {
                        assert(out@ + rest =~= old_out + (src@.subrange(cursor as int, end as int) + rest));
                    },
                    Err(e) => {},
                }
            }
            cursor = end;
            continue;
        }
        if is_ident_start(ch) {
            let (end, segments) = scan_reference_path(&src, cursor);
            let ghost raw = src@.subrange(cursor as int, end as int);
            proof {
                assert(segments@.map_values(|v: Vec<char>| v@).len() == segments@.len());
            }
            let keep = is_property_access(&src, cursor) || is_map_key(&src, end) || segments.len() > 1;
            if keep {
                push_range(&mut out, &src, cursor, end);
            } else {
                let first = string_from_chars(&segments[0]);
                proof {
                    assert(segments@.map_values(|v: Vec<char>| v@)[0] == segments@[0]@);
                }
                match renames.get(first.as_str()) {
                    Some(replacement) => {
                        let rep = chars_of(replacement.as_str());
                        push_all(&mut out, &rep);
                    },
                    None => {
                        push_range(&mut out, &src, cursor, end);
                    },
                }
            }
            proof {
                let path = spec_reference_path(src@, cursor as int);
                let piece = if spec_is_property_access(src@, cursor as int) || spec_is_map_key(src@, path.0) || path.1.len() > 1 {
                    raw
                } else {
                    match renames.spec_get(path.1[0]) {
                        Some(r) => r@,
                        None => raw,
                    }
                };
                assert(out@ =~= old_out + piece);
                match spec_rename_from(src@, end as int, *renames) {
                    Ok(rest) => {
                        assert(out@ + rest =~= old_out + (piece + rest));
                    },
                    Err(e) => {},
                }
            }
            cursor = end;
            continue;
        }
        out.push(first_byte_char(ch));
        proof {
            match spec_rename_from(src@, cursor + 1, *renames) {
                Ok(rest) => {
                    assert(out@ + rest =~= old_out + (seq![spec_first_byte_char(ch)] + rest));
                },
                Err(e) => {},
            }
        }
        cursor = cursor + 1;
    }
    assert(out@ + Seq::<char>::empty() =~= out@);
    Ok(string_from_chars(&out))
}

/// The first `n` segments joined with `.`.
pub fn join_segments(segs: &Vec<Vec<char>>, n: usize) -> (r: Vec<char>)
    requires
        n <= segs@.len(),
    ensures
        r@ == spec_join_dots(segs@.map_values(|v: Vec<char>| v@).take(n as int)),
{
    let mut out: Vec<char> = Vec::new();
    let mut i: usize = 0;
    while i < n
        invariant
            i <= n <= segs@.len(),
            out@ == spec_join_dots(segs@.map_values(|v: Vec<char>| v@).take(i as int)),
        decreases n - i,
    {
        if i > 0 {
            out.push('.');
        }
        push_all(&mut out, &segs[i]);
        proof {
            let t = segs@.map_values(|v: Vec<char>| v@).take(i + 1);
            assert(t.drop_last() =~= segs@.map_values(|v: Vec<char>| v@).take(i as int));
            assert(t.last() == segs@[i as int]@);
        }
        i = i + 1;
    }
    out
}

/// What the identifier path at `i` becomes when consts are replaced: a
/// plain name that is a local const, or a const visible by short name, or a
/// dotted name of a const of the current or another visible module, becomes
/// the const's literal; shadowed names, property names and object keys
/// stay; a name still blocked (declared later) is an error.
pub open spec fn spec_const_piece(s: Seq<char>, i: int, env: Map<Seq<char>, ConstView>, r: ResolverView, blocked: Set<Seq<char>>, shadowed: Set<Seq<char>>) -> Result<Seq<char>, ErrorView> {
    let path = spec_reference_path(s, i);
    let raw = s.subrange(i, path.0);
    let segs = path.1;
    if shadowed.contains(segs[0]) || spec_is_property_access(s, i) {
        Ok(raw)
    } else if segs.len() == 1 {
        let ident = segs[0];
        if spec_is_map_key(s, path.0) {
            Ok(ident)
        } else if spec_env_get(env, ident) is Some {
            Ok(spec_rhai_literal(spec_env_get(env, ident)->0))
        } else {
            match r.short_const(ident) {
                Err(e) => Err(e),
                Ok(Some(v)) => Ok(spec_rhai_literal(v)),
                Ok(None) => if blocked.contains(ident) {
                    Err(ErrorView::ConstUsedBeforeDefinition(ident))
                } else {
                    Ok(ident)
                },
            }
        }
    } else {
        let target = spec_join_dots(segs.drop_last());
        let name = segs.last();
        if target == r.current_module() {
            match spec_env_get(env, name) {
                Some(v) => Ok(spec_rhai_literal(v)),
                None => Ok(raw),
            }
        } else {
            match r.qualified_const(target, name) {
                Err(e) => Err(e),
                Ok(QualifiedLookupView::Value(v)) => Ok(spec_rhai_literal(v)),
                Ok(_) => Ok(raw),
            }
        }
    }
}

/// The text `s[i..]` with its const references replaced by their literal
/// values (see `spec_const_piece`); quoted strings are copied unchanged.
pub open spec fn spec_rewrite_consts_from(s: Seq<char>, i: int, env: Map<Seq<char>, ConstView>, r: ResolverView, blocked: Set<Seq<char>>, shadowed: Set<Seq<char>>) -> Result<Seq<char>, ErrorView>
    decreases s.len() - i,
{
    if i < 0 || i >= s.len() {
        Ok(Seq::empty())
    } else if s[i] == '"' || s[i] == '\'' {
        proof {
            lemma_skip_quoted(s, i + 1, s[i]);
        }
        match spec_skip_quoted(s, i + 1, s[i]) {
            Some(end) => match spec_rewrite_consts_from(s, end, env, r, blocked, shadowed) {
                Ok(rest) => Ok(s.subrange(i, end) + rest),
                Err(e) => Err(e),
            },
            None => Err(ErrorView::UnterminatedStringLiteral),
        }
    } else if spec_is_ident_start(s[i]) {
        proof {
            lemma_reference_path(s, i);
        }
        match spec_const_piece(s, i, env, r, blocked, shadowed) {
            Err(e) => Err(e),
            Ok(p) => match spec_rewrite_consts_from(s, spec_reference_path(s, i).0, env, r, blocked, shadowed) {
                Ok(rest) => Ok(p + rest),
                Err(e) => Err(e),
            },
        }
    } else {
        match spec_rewrite_consts_from(s, i + 1, env, r, blocked, shadowed) {
            Ok(rest) => Ok(seq![spec_first_byte_char(s[i])] + rest),
            Err(e) => Err(e),
        }
    }
}

pub open spec fn spec_text_out(r: Result<String, ScriptLangError>) -> Result<Seq<char>, ErrorView> {
    match r {
        Ok(t) => Ok(t@),
        Err(e) => Err(e@),
    }
}

/// Replaces the const references in an expression by their literal values.
///
/// Outside quotes the text is walked one UTF-8 byte at a time, so a character
/// of two bytes is written as its first byte read as a character
/// ([`spec_first_byte_char`]); longer characters are copied as they stand.
pub fn rewrite_expr_with_consts(
    source: &str,
    local_env: &NameMap<ConstValue>,
    resolver: &ScopeResolver<'_>,
    blocked_names: &NameSet,
    shadowed_names: &NameSet,
) -> (r: Result<String, ScriptLangError>)
    requires
        local_env.wf(),
        blocked_names.wf(),
        shadowed_names.wf(),
    ensures
        spec_text_out(r) == spec_rewrite_consts_from(source@, 0, spec_env_view(*local_env), resolver@, blocked_names.view_set(), shadowed_names.view_set()),
{
    let src = chars_of(source);
    let mut out: Vec<char> = Vec::new();
    let mut cursor: usize = 0;
    while cursor < src.len()
        invariant
            src@ == source@,
            local_env.wf(),
            blocked_names.wf(),
            shadowed_names.wf(),
            cursor <= src@.len(),
            match spec_rewrite_consts_from(src@, cursor as int, spec_env_view(*local_env), resolver@, blocked_names.view_set(), shadowed_names.view_set()) {
                Ok(rest) => spec_rewrite_consts_from(src@, 0, spec_env_view(*local_env), resolver@, blocked_names.view_set(), shadowed_names.view_set()) == Ok::<Seq<char>, ErrorView>(out@ + rest),
                Err(e) => spec_rewrite_consts_from(src@, 0, spec_env_view(*local_env), resolver@, blocked_names.view_set(), shadowed_names.view_set()) == Err::<Seq<char>, ErrorView>(e),
            },
        decreases src@.len() - cursor,
    {
        let ghost old_out = out@;
        let ch = src[cursor];
        if ch == '"' || ch == '\'' {
            let end = match scan_quoted(&src, cursor) {
                Ok(end) => end,
                Err(e) => {
                    return Err(e);
                },
            };
            proof {
                lemma_skip_quoted(src@, cursor + 1, ch);
            }
            push_range(&mut out, &src, cursor, end);
            proof {
                match spec_rewrite_consts_from(src@, end as int, spec_env_view(*local_env), resolver@, blocked_names.view_set(), shadowed_names.view_set()) {
                    Ok(rest) => {
                        assert(out@ + rest =~= old_out + (src@.subrange(cursor as int, end as int) + rest));
                    },
                    Err(e) => {},
                }
            }
            cursor = end;
            continue;
        }
        if is_ident_start(ch) {
            let (end, segments) = scan_reference_path(&src, cursor);
            let ghost segs = segments@.map_values(|v: Vec<char>| v@);
            let ghost raw = src@.subrange(cursor as int, end as int);
            assert(segs.len() == segments@.len());
            let first = string_from_chars(&segments[0]);
            assert(first@ == segs[0]);
            let n = segments.len();
            let ghost sp = spec_const_piece(src@, cursor as int, spec_env_view(*local_env), resolver@, blocked_names.view_set(), shadowed_names.view_set());
            let ghost mut expect: Seq<char> = Seq::empty();
            if shadowed_names.contains(first.as_str()) || is_property_access(&src, cursor) {
                push_range(&mut out, &src, cursor, end);
                assert(sp == Ok::<Seq<char>, ErrorView>(raw));
                proof { expect = raw; }
                assert(out@ =~= old_out + expect);
                assert(out@ =~= old_out + raw);
            } else if n == 1 {
                if is_map_key(&src, end) {
                    push_all(&mut out, &segments[0]);
                    assert(sp == Ok::<Seq<char>, ErrorView>(segs[0]));
                proof { expect = segs[0]; }
                assert(out@ =~= old_out + expect);
                } else {
                    match local_env.get(first.as_str()) {
                        Some(v) => {
                            let lit = v.to_rhai_literal();
                            push_all(&mut out, &chars_of(lit.as_str()));
                            assert(spec_env_get(spec_env_view(*local_env), segs[0]) == Some(v@));
                            assert(sp == Ok::<Seq<char>, ErrorView>(lit@));
                proof { expect = lit@; }
                assert(out@ =~= old_out + expect);
                        },
                        None => {
                            match resolver.resolve_short_const(first.as_str()) {
                                Err(e) => {
                                    return Err(e);
                                },
                                Ok(Some(v)) => {
                                    let lit = v.to_rhai_literal();
                                    push_all(&mut out, &chars_of(lit.as_str()));
                                    assert(sp == Ok::<Seq<char>, ErrorView>(lit@));
                proof { expect = lit@; }
                assert(out@ =~= old_out + expect);
                                },
                                Ok(None) => {
                                    if blocked_names.contains(first.as_str()) {
                                        return Err(ScriptLangError::ConstUsedBeforeDefinition(first));
                                    }
                                    push_all(&mut out, &segments[0]);
                                    assert(sp == Ok::<Seq<char>, ErrorView>(segs[0]));
                proof { expect = segs[0]; }
                assert(out@ =~= old_out + expect);
                                },
                            }
                        },
                    }
                }
            } else {
                let target_chars = join_segments(&segments, n - 1);
                assert(segs.take(n - 1) =~= segs.drop_last());
                let target = string_from_chars(&target_chars);
                let name = string_from_chars(&segments[n - 1]);
                assert(name@ == segs.last());
                if compare_names(target.as_str(), resolver.current_module()) == 0 {
                    match local_env.get(name.as_str()) {
                        Some(v) => {
                            let lit = v.to_rhai_literal();
                            push_all(&mut out, &chars_of(lit.as_str()));
                            assert(sp == Ok::<Seq<char>, ErrorView>(lit@));
                proof { expect = lit@; }
                assert(out@ =~= old_out + expect);
                        },
                        None => {
                            push_range(&mut out, &src, cursor, end);
                            assert(sp == Ok::<Seq<char>, ErrorView>(raw));
                proof { expect = raw; }
                assert(out@ =~= old_out + expect);
                        },
                    }
                } else {
                    match resolver.resolve_qualified_const(target.as_str(), name.as_str()) {
                        Err(e) => {
                            return Err(e);
                        },
                        Ok(QualifiedConstLookup::Value(v)) => {
                            let lit = v.to_rhai_literal();
                            push_all(&mut out, &chars_of(lit.as_str()));
                            assert(sp == Ok::<Seq<char>, ErrorView>(lit@));
                proof { expect = lit@; }
                assert(out@ =~= old_out + expect);
                        },
                        Ok(_) => {
                            push_range(&mut out, &src, cursor, end);
                            assert(sp == Ok::<Seq<char>, ErrorView>(raw));
                proof { expect = raw; }
                assert(out@ =~= old_out + expect);
                        },
                    }
                }
            }
            proof {
                let piece = expect;
                assert(sp == Ok::<Seq<char>, ErrorView>(piece));
                match spec_rewrite_consts_from(src@, end as int, spec_env_view(*local_env), resolver@, blocked_names.view_set(), shadowed_names.view_set()) {
                    Ok(rest) => {
                        assert(out@ + rest =~= old_out + (piece + rest));
                    },
                    Err(e) => {},
                }
            }
            cursor = end;
            continue;
        }
        out.push(first_byte_char(ch));
        proof {
            match spec_rewrite_consts_from(src@, cursor + 1, spec_env_view(*local_env), resolver@, blocked_names.view_set(), shadowed_names.view_set()) {
                Ok(rest) => {
                    assert(out@ + rest =~= old_out + (seq![spec_first_byte_char(ch)] + rest));
                },
                Err(e) => {},
            }
        }
        cursor = cursor + 1;
    }
    assert(out@ + Seq::<char>::empty() =~= out@);
    Ok(string_from_chars(&out))
}

/// The template with the const references of each hole replaced; the
/// first failing hole's error.
pub open spec fn spec_rewrite_template_consts(segs: Seq<SegmentView>, env: Map<Seq<char>, ConstView>, r: ResolverView, blocked: Set<Seq<char>>, shadowed: Set<Seq<char>>) -> Result<Seq<SegmentView>, ErrorView>
    decreases segs.len(),
{
    if segs.len() == 0 {
        Ok(Seq::empty())
    } else {
        let first: Result<SegmentView, ErrorView> = match segs[0] {
            SegmentView::Literal(t) => Ok(SegmentView::Literal(t)),
            SegmentView::Expr(e) => match spec_rewrite_consts_from(e, 0, env, r, blocked, shadowed) {
                Ok(x) => Ok(SegmentView::Expr(x)),
                Err(err) => Err(err),
            },
        };
        match first {
            Err(err) => Err(err),
            Ok(f) => match spec_rewrite_template_consts(segs.drop_first(), env, r, blocked, shadowed) {
                Ok(rest) => Ok(seq![f] + rest),
                Err(err) => Err(err),
            },
        }
    }
}

pub open spec fn spec_template_out(r: Result<TextTemplate, ScriptLangError>) -> Result<Seq<SegmentView>, ErrorView> {
    match r {
        Ok(t) => Ok(t@),
        Err(e) => Err(e@),
    }
}

/// Replaces the const references in each hole of a template.
pub fn rewrite_template_with_consts(
    template: TextTemplate,
    local_env: &NameMap<ConstValue>,
    resolver: &ScopeResolver<'_>,
    blocked_names: &NameSet,
    shadowed_names: &NameSet,
) -> (r: Result<TextTemplate, ScriptLangError>)
    requires
        local_env.wf(),
        blocked_names.wf(),
        shadowed_names.wf(),
    ensures
        spec_template_out(r) == spec_rewrite_template_consts(template@, spec_env_view(*local_env), resolver@, blocked_names.view_set(), shadowed_names.view_set()),
{
    let mut segments: Vec<TextSegment> = Vec::new();
    let mut i: usize = 0;
    assert(template@.skip(0) =~= template@);
    assert(segments@.map_values(|x: TextSegment| x@) =~= Seq::<SegmentView>::empty());
    proof {
        match spec_rewrite_template_consts(template@, spec_env_view(*local_env), resolver@, blocked_names.view_set(), shadowed_names.view_set()) {
            Ok(rest) => {
                assert(Seq::<SegmentView>::empty() + rest =~= rest);
            },
            Err(e) => {},
        }
    }
    while i < template.segments.len()
        invariant
            local_env.wf(),
            blocked_names.wf(),
            shadowed_names.wf(),
            i <= template.segments@.len(),
            match spec_rewrite_template_consts(template@.skip(i as int), spec_env_view(*local_env), resolver@, blocked_names.view_set(), shadowed_names.view_set()) {
                Ok(rest) => spec_rewrite_template_consts(template@, spec_env_view(*local_env), resolver@, blocked_names.view_set(), shadowed_names.view_set()) == Ok::<Seq<SegmentView>, ErrorView>(segments@.map_values(|x: TextSegment| x@) + rest),
                Err(e) => spec_rewrite_template_consts(template@, spec_env_view(*local_env), resolver@, blocked_names.view_set(), shadowed_names.view_set()) == Err::<Seq<SegmentView>, ErrorView>(e),
            },
        decreases template.segments@.len() - i,
    {
        let ghost old_view = segments@.map_values(|x: TextSegment| x@);
        let ghost tail = template@.skip(i as int);
        assert(tail[0] == template.segments@[i as int]@);
        assert(tail.drop_first() =~= template@.skip(i + 1));
        let seg = match &template.segments[i] {
            TextSegment::Literal(text) => TextSegment::Literal(text.clone()),
            TextSegment::Expr(expr) => {
                match rewrite_expr_with_consts(expr.as_str(), local_env, resolver, blocked_names, shadowed_names) {
                    Ok(x) => TextSegment::Expr(x),
                    Err(e) => {
                        return Err(e);
                    },
                }
            },
        };
        let ghost f = seg@;
        segments.push(seg);
        proof {
            assert(segments@.map_values(|x: TextSegment| x@) =~= old_view.push(f));
            match spec_rewrite_template_consts(template@.skip(i + 1), spec_env_view(*local_env), resolver@, blocked_names.view_set(), shadowed_names.view_set()) {
                Ok(rest) => {
                    assert(segments@.map_values(|x: TextSegment| x@) + rest =~= old_view + (seq![f] + rest));
                },
                Err(e) => {},
            }
        }
        i = i + 1;
    }
    proof {
        assert(template@.skip(i as int).len() == 0);
        assert(segments@.map_values(|x: TextSegment| x@) + Seq::<SegmentView>::empty() =~= segments@.map_values(|x: TextSegment| x@));
    }
    Ok(TextTemplate { segments })
}

/// The text `s[i..]` with each `@script` and `#function` literal replaced by
/// the quoted qualified name it resolves to.
pub open spec fn spec_special_from(s: Seq<char>, i: int, r: ResolverView) -> Result<Seq<char>, ErrorView>
    decreases s.len() - i,
{
    if i < 0 || i >= s.len() {
        Ok(Seq::empty())
    } else if s[i] == '"' || s[i] == '\'' {
        proof {
            lemma_skip_quoted(s, i + 1, s[i]);
        }
        match spec_skip_quoted(s, i + 1, s[i]) {
            Some(end) => match spec_special_from(s, end, r) {
                Ok(rest) => Ok(s.subrange(i, end) + rest),
                Err(e) => Err(e),
            },
            None => Err(ErrorView::UnterminatedStringLiteral),
        }
    } else if s[i] == '@' {
        if i + 1 >= s.len() || !spec_is_ident_start(s[i + 1]) {
            Err(ErrorView::InvalidScriptLiteral)
        } else {
            let e = spec_literal_end(s, i + 1);
            proof {
                lemma_literal_end(s, i + 1);
            }
            match r.script_literal(s.subrange(i, e)) {
                Err(err) => Err(err),
                Ok(q) => match spec_special_from(s, e, r) {
                    Ok(rest) => Ok(spec_debug_str(q) + rest),
                    Err(err) => Err(err),
                },
            }
        }
    } else if s[i] == '#' && i + 1 < s.len() && spec_is_ident_start(s[i + 1]) {
        let e = spec_literal_end(s, i + 1);
        proof {
            lemma_literal_end(s, i + 1);
        }
        match r.function_literal(s.subrange(i, e)) {
            Err(err) => Err(err),
            Ok(q) => match spec_special_from(s, e, r) {
                Ok(rest) => Ok(spec_debug_str(q) + rest),
                Err(err) => Err(err),
            },
        }
    } else if spec_is_ident_start(s[i]) {
        let path = spec_reference_path(s, i);
        proof {
            lemma_reference_path(s, i);
        }
        match spec_special_from(s, path.0, r) {
            Ok(rest) => Ok(s.subrange(i, path.0) + rest),
            Err(e) => Err(e),
        }
    } else {
        match spec_special_from(s, i + 1, r) {
            Ok(rest) => Ok(seq![s[i]] + rest),
            Err(e) => Err(e),
        }
    }
}

/// An expression with its `@script` literals resolved: scanning errors come
/// first, then those of the literals in order.
pub open spec fn spec_rewrite_special(s: Seq<char>, r: ResolverView) -> Result<Seq<char>, ErrorView> {
    match spec_scan_tokens(s, 0) {
        Err(e) => Err(e@),
        Ok(_) => spec_special_from(s, 0, r),
    }
}

/// Replaces each `@script` and `#function` literal of an expression by the
/// quoted qualified name it resolves to; strings and names stay.
pub fn rewrite_special_literals(source: &str, resolver: &ScopeResolver<'_>) -> (r: Result<String, ScriptLangError>)
    ensures
        spec_text_out(r) == spec_rewrite_special(source@, resolver@),
{
    match scan_expr_source(source, ExprKind::Rhai) {
        Ok(_) => {},
        Err(e) => {
            return Err(e);
        },
    }
    let src = chars_of(source);
    let mut out: Vec<char> = Vec::new();
    let mut cursor: usize = 0;
    while cursor < src.len()
        invariant
            src@ == source@,
            cursor <= src@.len(),
            spec_scan_tokens(src@, 0) is Ok,
            spec_scan_tokens(src@, cursor as int) is Ok,
            match spec_special_from(src@, cursor as int, resolver@) {
                Ok(rest) => spec_special_from(src@, 0, resolver@) == Ok::<Seq<char>, ErrorView>(out@ + rest),
                Err(e) => spec_special_from(src@, 0, resolver@) == Err::<Seq<char>, ErrorView>(e),
            },
        decreases src@.len() - cursor,
    {
        let ghost old_out = out@;
        let ch = src[cursor];
        if ch == '"' || ch == '\'' {
            proof {
                lemma_skip_quoted(src@, cursor + 1, ch);
            }
            let end = match scan_quoted(&src, cursor) {
                Ok(end) => end,
                Err(e) => {
                    return Err(e);
                },
            };
            proof {
                lemma_skip_quoted(src@, cursor + 1, ch);
            }
            push_range(&mut out, &src, cursor, end);
            proof {
                match spec_special_from(src@, end as int, resolver@) {
                    Ok(rest) => {
                        assert(out@ + rest =~= old_out + (src@.subrange(cursor as int, end as int) + rest));
                    },
                    Err(e) => {},
                }
            }
            cursor = end;
        } else if ch == '@' {
            let start = cursor;
            proof {
                lemma_literal_end(src@, start + 1);
            }
            let mut e = cursor + 1;
            proof {
                lemma_literal_end(src@, e as int);
            }
            while e < src.len() && (is_ident_continue(src[e]) || src[e] == '.')
                invariant
                    start < e <= src@.len(),
                    src@.len() == src.len(),
                    spec_literal_end(src@, start + 1) == spec_literal_end(src@, e as int),
                decreases src@.len() - e,
            {
                e = e + 1;
            }
            let mut raw: Vec<char> = Vec::new();
            push_range(&mut raw, &src, start, e);
            let raw_str = string_from_chars(&raw);
            proof {
                assert(cursor + 1 < src@.len() && spec_is_ident_start(src@[cursor + 1]));
                assert(raw_str@ =~= src@.subrange(start as int, e as int));
            }
            let qualified = match resolver.resolve_script_literal(raw_str.as_str()) {
                Ok(q) => q,
                Err(err) => {
                    assert(spec_special_from(src@, cursor as int, resolver@) == Err::<Seq<char>, ErrorView>(err@));
                    return Err(err);
                },
            };
            let quoted = debug_str(qualified.as_str());
            push_all(&mut out, &chars_of(quoted.as_str()));
            proof {
                match spec_special_from(src@, e as int, resolver@) {
                    Ok(rest) => {
                        assert(out@ + rest =~= old_out + (spec_debug_str(qualified@) + rest));
                    },
                    Err(err) => {},
                }
            }
            cursor = e;
        } else if ch == '#' && cursor + 1 < src.len() && is_ident_start(src[cursor + 1]) {
            let start = cursor;
            let mut e = cursor + 1;
            proof {
                lemma_literal_end(src@, e as int);
            }
            while e < src.len() && (is_ident_continue(src[e]) || src[e] == '.')
                invariant
                    start < e <= src@.len(),
                    src@.len() == src.len(),
                    spec_literal_end(src@, start + 1) == spec_literal_end(src@, e as int),
                decreases src@.len() - e,
            {
                e = e + 1;
            }
            let mut raw: Vec<char> = Vec::new();
            push_range(&mut raw, &src, start, e);
            let raw_str = string_from_chars(&raw);
            proof {
                assert(raw_str@ =~= src@.subrange(start as int, e as int));
            }
            let qualified = match resolver.resolve_function_literal(raw_str.as_str()) {
                Ok(q) => q,
                Err(err) => {
                    assert(spec_special_from(src@, cursor as int, resolver@) == Err::<Seq<char>, ErrorView>(err@));
                    return Err(err);
                },
            };
            let quoted = debug_str(qualified.as_str());
            push_all(&mut out, &chars_of(quoted.as_str()));
            proof {
                match spec_special_from(src@, e as int, resolver@) {
                    Ok(rest) => {
                        assert(out@ + rest =~= old_out + (spec_debug_str(qualified@) + rest));
                    },
                    Err(err) => {},
                }
            }
            cursor = e;
        } else if is_ident_start(ch) {
            let (end, segments) = scan_reference_path(&src, cursor);
            proof {
                lemma_reference_path(src@, cursor as int);
            }
            push_range(&mut out, &src, cursor, end);
            proof {
                match spec_special_from(src@, end as int, resolver@) {
                    Ok(rest) => {
                        assert(out@ + rest =~= old_out + (src@.subrange(cursor as int, end as int) + rest));
                    },
                    Err(e) => {},
                }
            }
            cursor = end;
        } else {
            out.push(ch);
            proof {
                match spec_special_from(src@, cursor + 1, resolver@) {
                    Ok(rest) => {
                        assert(out@ + rest =~= old_out + (seq![ch] + rest));
                    },
                    Err(e) => {},
                }
            }
            cursor = cursor + 1;
        }
    }
    assert(out@ + Seq::<char>::empty() =~= out@);
    Ok(string_from_chars(&out))
}

/// The template with the `@script` literals of each hole resolved; the
/// first failing hole's error.
pub open spec fn spec_rewrite_template_special(segs: Seq<SegmentView>, r: ResolverView) -> Result<Seq<SegmentView>, ErrorView>
    decreases segs.len(),
{
    if segs.len() == 0 {
        Ok(Seq::empty())
    } else {
        let first: Result<SegmentView, ErrorView> = match segs[0] {
            SegmentView::Literal(t) => Ok(SegmentView::Literal(t)),
            SegmentView::Expr(e) => match spec_rewrite_special(e, r) {
                Ok(x) => Ok(SegmentView::Expr(x)),
                Err(err) => Err(err),
            },
        };
        match first {
            Err(err) => Err(err),
            Ok(f) => match spec_rewrite_template_special(segs.drop_first(), r) {
                Ok(rest) => Ok(seq![f] + rest),
                Err(err) => Err(err),
            },
        }
    }
}

/// Resolves the `@script` literals in each hole of a template.
pub fn rewrite_template_special_literals(template: TextTemplate, resolver: &ScopeResolver<'_>) -> (r: Result<TextTemplate, ScriptLangError>)
    ensures
        spec_template_out(r) == spec_rewrite_template_special(template@, resolver@),
{
    let mut segments: Vec<TextSegment> = Vec::new();
    let mut i: usize = 0;
    assert(template@.skip(0) =~= template@);
    assert(segments@.map_values(|x: TextSegment| x@) =~= Seq::<SegmentView>::empty());
    proof {
        match spec_rewrite_template_special(template@, resolver@) {
            Ok(rest) => {
                assert(Seq::<SegmentView>::empty() + rest =~= rest);
            },
            Err(e) => {},
        }
    }
    while i < template.segments.len()
        invariant
            i <= template.segments@.len(),
            match spec_rewrite_template_special(template@.skip(i as int), resolver@) {
                Ok(rest) => spec_rewrite_template_special(template@, resolver@) == Ok::<Seq<SegmentView>, ErrorView>(segments@.map_values(|x: TextSegment| x@) + rest),
                Err(e) => spec_rewrite_template_special(template@, resolver@) == Err::<Seq<SegmentView>, ErrorView>(e),
            },
        decreases template.segments@.len() - i,
    {
        let ghost old_view = segments@.map_values(|x: TextSegment| x@);
        let ghost tail = template@.skip(i as int);
        assert(tail[0] == template.segments@[i as int]@);
        assert(tail.drop_first() =~= template@.skip(i + 1));
        let seg = match &template.segments[i] {
            TextSegment::Literal(text) => TextSegment::Literal(text.clone()),
            TextSegment::Expr(expr) => {
                match rewrite_special_literals(expr.as_str(), resolver) {
                    Ok(x) => TextSegment::Expr(x),
                    Err(e) => {
                        return Err(e);
                    },
                }
            },
        };
        let ghost f = seg@;
        segments.push(seg);
        proof {
            assert(segments@.map_values(|x: TextSegment| x@) =~= old_view.push(f));
            match spec_rewrite_template_special(template@.skip(i + 1), resolver@) {
                Ok(rest) => {
                    assert(segments@.map_values(|x: TextSegment| x@) + rest =~= old_view + (seq![f] + rest));
                },
                Err(e) => {},
            }
        }
        i = i + 1;
    }
    proof {
        assert(template@.skip(i as int).len() == 0);
        assert(segments@.map_values(|x: TextSegment| x@) + Seq::<SegmentView>::empty() =~= segments@.map_values(|x: TextSegment| x@));
    }
    Ok(TextTemplate { segments })
}

/// Where the parenthesis that closes a call ends (one past it), starting
/// inside at `cur` with `depth` open parentheses; parentheses in quoted
/// strings do not count.
pub open spec fn spec_match_paren(s: Seq<char>, cur: int, depth: int) -> Result<int, ErrorView>
    decreases s.len() - cur,
{
    if cur < 0 || cur >= s.len() {
        Err(ErrorView::UnterminatedFunctionCall)
    } else if s[cur] == '"' || s[cur] == '\'' {
        proof {
            lemma_skip_quoted(s, cur + 1, s[cur]);
        }
        match spec_skip_quoted(s, cur + 1, s[cur]) {
            Some(e) => spec_match_paren(s, e, depth),
            None => Err(ErrorView::UnterminatedStringLiteral),
        }
    } else if s[cur] == '(' {
        spec_match_paren(s, cur + 1, depth + 1)
    } else if s[cur] == ')' {
        if depth - 1 == 0 {
            Ok(cur + 1)
        } else {
            spec_match_paren(s, cur + 1, depth - 1)
        }
    } else {
        spec_match_paren(s, cur + 1, depth)
    }
}

pub proof fn lemma_match_paren(s: Seq<char>, cur: int, depth: int)
    requires
        0 <= cur,
    ensures
        spec_match_paren(s, cur, depth) matches Ok(e) ==> cur < e <= s.len(),
    decreases s.len() - cur,
{
    if 0 <= cur < s.len() {
        if s[cur] == '"' || s[cur] == '\'' {
            lemma_skip_quoted(s, cur + 1, s[cur]);
            if let Some(e) = spec_skip_quoted(s, cur + 1, s[cur]) {
                lemma_match_paren(s, e, depth);
            }
        } else if s[cur] == ')' && depth - 1 == 0 {
        } else if s[cur] == '(' {
            lemma_match_paren(s, cur + 1, depth + 1);
        } else if s[cur] == ')' {
            lemma_match_paren(s, cur + 1, depth - 1);
        } else {
            lemma_match_paren(s, cur + 1, depth);
        }
    }
}

/// One past the `)` that closes the `(` at `open`.
pub fn scan_matching_paren(src: &[char], open: usize) -> (r: Result<usize, ScriptLangError>)
    requires
        open < src.len(),
    ensures
        match r {
            Ok(e) => spec_match_paren(src@, open + 1, 1) == Ok::<int, ErrorView>(e as int),
            Err(err) => spec_match_paren(src@, open + 1, 1) == Err::<int, ErrorView>(err@),
        },
        r matches Ok(e) ==> open + 1 < e <= src@.len(),
{
    let mut cursor = open + 1;
    let mut depth: usize = 1;
    proof {
        lemma_match_paren(src@, open + 1, 1);
    }
    while cursor < src.len()
        invariant
            open < cursor <= src@.len(),
            src@.len() == src.len(),
            1 <= depth <= cursor - open,
            spec_match_paren(src@, cursor as int, depth as int) == spec_match_paren(src@, open + 1, 1),
        decreases src@.len() - cursor,
    {
        let ch = src[cursor];
        if ch == '"' || ch == '\'' {
            proof {
                lemma_skip_quoted(src@, cursor + 1, ch);
            }
            let end = match scan_quoted(src, cursor) {
                Ok(e) => e,
                Err(err) => {
                    return Err(err);
                },
            };
            cursor = end;
        } else if ch == '(' {
            depth = depth + 1;
            cursor = cursor + 1;
        } else if ch == ')' {
            depth = depth - 1;
            cursor = cursor + 1;
            if depth == 0 {
                return Ok(cursor);
            }
        } else {
            cursor = cursor + 1;
        }
    }
    Err(ScriptLangError::UnterminatedFunctionCall)
}

} // verus!
