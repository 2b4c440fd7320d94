//! Scanning of expression text: quoted strings, identifiers, dotted paths
//! and `@script` literals.
use vstd::prelude::*;
use crate::errors::ScriptLangError;
use crate::expr::types::{ExprKind, ExprSource, SpecialToken, SpecialTokenKind};
use crate::text::{
    chars_of, is_ident_continue, is_ident_start, push_range, spec_is_ident_continue,
    spec_is_ident_start, string_from_chars,
};

verus! {

/// End of the identifier characters that start at `i`.
pub open spec fn spec_ident_end(s: Seq<char>, i: int) -> int
    decreases s.len() - i,
{
    if i < 0 || i >= s.len() || !spec_is_ident_continue(s[i]) {
        i
    } else {
        spec_ident_end(s, i + 1)
    }
}

pub proof fn lemma_ident_end(s: Seq<char>, i: int)
    requires
        0 <= i <= s.len(),
    ensures
        i <= spec_ident_end(s, i) <= s.len(),
        forall|k: int| i <= k < spec_ident_end(s, i) ==> spec_is_ident_continue(s[k]),
        spec_ident_end(s, i) < s.len() ==> !spec_is_ident_continue(s[spec_ident_end(s, i)]),
    decreases s.len() - i,
{
    if i < s.len() && spec_is_ident_continue(s[i]) {
        lemma_ident_end(s, i + 1);
    }
}

/// The dotted path of identifiers that starts at `start`: where it ends and
/// its segments. A `.` belongs to the path only when an identifier start
/// follows it.
pub open spec fn spec_reference_path(s: Seq<char>, start: int) -> (int, Seq<Seq<char>>)
    decreases s.len() - start,
{
    if start < 0 || start >= s.len() {
        (start, Seq::empty())
    } else {
        let e = spec_ident_end(s, start + 1);
        let seg = s.subrange(start, e);
        proof {
            lemma_ident_end(s, start + 1);
        }
        if e + 1 < s.len() && s[e] == '.' && spec_is_ident_start(s[e + 1]) {
            let rest = spec_reference_path(s, e + 1);
            (rest.0, seq![seg] + rest.1)
        } else {
            (e, seq![seg])
        }
    }
}

pub proof fn lemma_reference_path(s: Seq<char>, start: int)
    requires
        0 <= start < s.len(),
    ensures
        start < spec_reference_path(s, start).0 <= s.len(),
        spec_reference_path(s, start).1.len() >= 1,
    decreases s.len() - start,
{
    let e = spec_ident_end(s, start + 1);
    lemma_ident_end(s, start + 1);
    if e + 1 < s.len() && s[e] == '.' && spec_is_ident_start(s[e + 1]) {
        lemma_reference_path(s, e + 1);
    }
}

/// The identifier path that starts at `start`: its end and its segments.
pub fn scan_reference_path(src: &[char], start: usize) -> (r: (usize, Vec<Vec<char>>))
    requires
        start < src@.len(),
    ensures
        r.0 == spec_reference_path(src@, start as int).0,
        r.1@.map_values(|v: Vec<char>| v@) == spec_reference_path(src@, start as int).1,
        start < r.0 <= src@.len(),
        r.1@.len() >= 1,
{
    let mut cursor = start;
    let mut segments: Vec<Vec<char>> = Vec::new();
    proof {
        lemma_reference_path(src@, start as int);
    }
    loop
        invariant
            start <= cursor < src@.len(),
            src@.len() == src.len(),
            segments@.len() >= 1 || cursor == start,
            spec_reference_path(src@, start as int).0 == spec_reference_path(src@, cursor as int).0,
            spec_reference_path(src@, start as int).1 == segments@.map_values(|v: Vec<char>| v@)
                + spec_reference_path(src@, cursor as int).1,
        decreases src@.len() - cursor,
    {
        let ident_start = cursor;
        proof {
            lemma_ident_end(src@, ident_start + 1);
            lemma_reference_path(src@, ident_start as int);
        }
        cursor = cursor + 1;
        while cursor < src.len() && is_ident_continue(src[cursor])
            invariant
                ident_start < cursor <= src@.len(),
                src@.len() == src.len(),
                spec_ident_end(src@, ident_start + 1) == spec_ident_end(src@, cursor as int),
            decreases src@.len() - cursor,
        {
            cursor = cursor + 1;
        }
        let mut seg: Vec<char> = Vec::new();
        push_range(&mut seg, src, ident_start, cursor);
        let ghost old_segments = segments@;
        segments.push(seg);
        assert(segments@.map_values(|v: Vec<char>| v@) =~= old_segments.map_values(
            |v: Vec<char>| v@,
        ).push(src@.subrange(ident_start as int, cursor as int)));
        if cursor >= src.len() || src[cursor] != '.' {
            assert(spec_reference_path(src@, start as int).1 =~= segments@.map_values(
                |v: Vec<char>| v@,
            ));
            return (cursor, segments);
        }
        let next = cursor + 1;
        if next >= src.len() || !is_ident_start(src[next]) {
            assert(spec_reference_path(src@, start as int).1 =~= segments@.map_values(
                |v: Vec<char>| v@,
            ));
            return (cursor, segments);
        }
        assert(spec_reference_path(src@, start as int).1 =~= segments@.map_values(
            |v: Vec<char>| v@,
        ) + spec_reference_path(src@, next as int).1);
        cursor = next;
    }
}

/// Where a quoted run that opens at `cur - 1` with quote `q` ends (one past
/// the closing quote); a backslash skips the character after it; `None`
/// when the run is not closed.
pub open spec fn spec_skip_quoted(s: Seq<char>, cur: int, q: char) -> Option<int>
    decreases s.len() - cur,
{
    if cur < 0 || cur >= s.len() {
        None
    } else if s[cur] == '\\' {
        if cur + 2 >= s.len() {
            None
        } else {
            spec_skip_quoted(s, cur + 2, q)
        }
    } else if s[cur] == q {
        Some(cur + 1)
    } else {
        spec_skip_quoted(s, cur + 1, q)
    }
}

pub proof fn lemma_skip_quoted(s: Seq<char>, cur: int, q: char)
    requires
        0 <= cur,
    ensures
        spec_skip_quoted(s, cur, q) matches Some(e) ==> cur < e <= s.len() && s[e - 1] == q,
    decreases s.len() - cur,
{
    if cur < s.len() {
        if s[cur] == '\\' {
            if cur + 2 < s.len() {
                lemma_skip_quoted(s, cur + 2, q);
            }
        } else if s[cur] != q {
            lemma_skip_quoted(s, cur + 1, q);
        }
    }
}

/// End of the quoted string that opens at `start` (one past its closing
/// quote); an error when it is not closed.
pub fn scan_quoted(src: &[char], start: usize) -> (r: Result<usize, ScriptLangError>)
    requires
        start < src@.len(),
    ensures
        r matches Ok(e) ==> spec_skip_quoted(src@, start + 1, src@[start as int]) == Some(e as int),
        r is Err ==> spec_skip_quoted(src@, start + 1, src@[start as int]) is None && r
            == Err::<usize, ScriptLangError>(ScriptLangError::UnterminatedStringLiteral),
{
    let quote = src[start];
    let mut cursor = start + 1;
    while cursor < src.len()
        invariant
            start < cursor,
            start < src@.len() == src.len(),
            quote == src@[start as int],
            spec_skip_quoted(src@, cursor as int, quote) == spec_skip_quoted(
                src@,
                start + 1,
                quote,
            ),
        decreases src@.len() - cursor,
    {
        if src[cursor] == '\\' {
            if src.len() - cursor <= 2 {
                return Err(ScriptLangError::UnterminatedStringLiteral);
            }
            cursor = cursor + 2;
        } else if src[cursor] == quote {
            return Ok(cursor + 1);
        } else {
            cursor = cursor + 1;
        }
    }
    Err(ScriptLangError::UnterminatedStringLiteral)
}

/// End of the run of identifier characters and dots that starts at `i`.
pub open spec fn spec_literal_end(s: Seq<char>, i: int) -> int
    decreases s.len() - i,
{
    if i < 0 || i >= s.len() || !(spec_is_ident_continue(s[i]) || s[i] == '.') {
        i
    } else {
        spec_literal_end(s, i + 1)
    }
}

pub proof fn lemma_literal_end(s: Seq<char>, i: int)
    requires
        0 <= i <= s.len(),
    ensures
        i <= spec_literal_end(s, i) <= s.len(),
    decreases s.len() - i,
{
    if i < s.len() && (spec_is_ident_continue(s[i]) || s[i] == '.') {
        lemma_literal_end(s, i + 1);
    }
}

/// The tokens of `s[i..]`: `@script` and `#function` literals, single
/// identifiers and dotted paths; quoted strings are skipped, and a `#` that
/// no identifier follows (an object literal) is not a token.
pub open spec fn spec_scan_tokens(s: Seq<char>, i: int) -> Result<Seq<SpecialToken>, ScriptLangError>
    decreases s.len() - i,
{
    if i < 0 || i >= s.len() {
        Ok(Seq::empty())
    } else if s[i] == '"' || s[i] == '\'' {
        proof {
            lemma_skip_quoted(s, i + 1, s[i]);
        }
        match spec_skip_quoted(s, i + 1, s[i]) {
            Some(end) => spec_scan_tokens(s, end),
            None => Err(ScriptLangError::UnterminatedStringLiteral),
        }
    } else if s[i] == '@' {
        if i + 1 >= s.len() || !spec_is_ident_start(s[i + 1]) {
            Err(ScriptLangError::InvalidScriptLiteral)
        } else {
            let e = spec_literal_end(s, i + 1);
            proof {
                lemma_literal_end(s, i + 1);
            }
            match spec_scan_tokens(s, e) {
                Ok(rest) => Ok(
                    seq![SpecialToken { kind: SpecialTokenKind::ScriptLiteral, start: i as usize, end: e as usize }]
                        + rest,
                ),
                Err(err) => Err(err),
            }
        }
    } else if s[i] == '#' && i + 1 < s.len() && spec_is_ident_start(s[i + 1]) {
        let e = spec_literal_end(s, i + 1);
        proof {
            lemma_literal_end(s, i + 1);
        }
        match spec_scan_tokens(s, e) {
            Ok(rest) => Ok(
                seq![SpecialToken { kind: SpecialTokenKind::FunctionLiteral, start: i as usize, end: e as usize }]
                    + rest,
            ),
            Err(err) => Err(err),
        }
    } else if spec_is_ident_start(s[i]) {
        let path = spec_reference_path(s, i);
        proof {
            lemma_reference_path(s, i);
        }
        let kind = if path.1.len() == 1 {
            SpecialTokenKind::IdentRef
        } else {
            SpecialTokenKind::QualifiedRef
        };
        match spec_scan_tokens(s, path.0) {
            Ok(rest) => Ok(seq![SpecialToken { kind, start: i as usize, end: path.0 as usize }] + rest),
            Err(err) => Err(err),
        }
    } else {
        spec_scan_tokens(s, i + 1)
    }
}

/// Scans an expression: records each `@script` and `#function` literal,
/// identifier and dotted path with its span; fails on an unterminated quoted string or an
/// `@` that no identifier follows.
pub fn scan_expr_source(source: &str, kind: ExprKind) -> (r: Result<ExprSource, ScriptLangError>)
    ensures
        r matches Ok(expr) ==> {
            &&& spec_scan_tokens(source@, 0) == Ok::<Seq<SpecialToken>, ScriptLangError>(
                expr.tokens@,
            )
            &&& expr.raw@ == source@
            &&& expr.kind == kind
        },
        r matches Err(e) ==> spec_scan_tokens(source@, 0) == Err::<Seq<SpecialToken>, ScriptLangError>(e),
{
    let src = chars_of(source);
    let mut cursor: usize = 0;
    let mut tokens: Vec<SpecialToken> = Vec::new();
    while cursor < src.len()
        invariant
            src@ == source@,
            cursor <= src@.len(),
            match spec_scan_tokens(src@, cursor as int) {
                Ok(rest) => spec_scan_tokens(src@, 0) == Ok::<Seq<SpecialToken>, ScriptLangError>(
                    tokens@ + rest,
                ),
                Err(e) => spec_scan_tokens(src@, 0) == Err::<Seq<SpecialToken>, ScriptLangError>(e),
            },
        decreases src@.len() - cursor,
    {
        let ch = src[cursor];
        if ch == '"' || ch == '\'' {
            match scan_quoted(&src, cursor) {
                Ok(end) => {
                    proof {
                        lemma_skip_quoted(src@, cursor + 1, ch);
                    }
                    cursor = end;
                },
                Err(e) => {
                    return Err(e);
                },
            }
            continue;
        }
        if ch == '@' {
            let start = cursor;
            cursor = cursor + 1;
            if cursor >= src.len() || !is_ident_start(src[cursor]) {
                return Err(ScriptLangError::InvalidScriptLiteral);
            }
            proof {
                lemma_literal_end(src@, cursor as int);
            }
            while cursor < src.len() && (is_ident_continue(src[cursor]) || src[cursor] == '.')
                invariant
                    start < cursor <= src@.len(),
                    src@.len() == src.len(),
                    spec_literal_end(src@, start + 1) == spec_literal_end(src@, cursor as int),
                decreases src@.len() - cursor,
            {
                cursor = cursor + 1;
            }
            let ghost old_tokens = tokens@;
            tokens.push(SpecialToken { kind: SpecialTokenKind::ScriptLiteral, start, end: cursor });
            proof {
                match spec_scan_tokens(src@, cursor as int) {
                    Ok(rest) => {
                        assert(tokens@ + rest =~= old_tokens + (seq![SpecialToken { kind: SpecialTokenKind::ScriptLiteral, start, end: cursor }] + rest));
                    },
                    Err(e) => {},
                }
            }
            continue;
        }
        if ch == '#' && cursor + 1 < src.len() && is_ident_start(src[cursor + 1]) {
            let start = cursor;
            cursor = cursor + 1;
            proof {
                lemma_literal_end(src@, cursor as int);
            }
            while cursor < src.len() && (is_ident_continue(src[cursor]) || src[cursor] == '.')
                invariant
                    start < cursor <= src@.len(),
                    src@.len() == src.len(),
                    spec_literal_end(src@, start + 1) == spec_literal_end(src@, cursor as int),
                decreases src@.len() - cursor,
            {
                cursor = cursor + 1;
            }
            let ghost old_tokens = tokens@;
            tokens.push(SpecialToken { kind: SpecialTokenKind::FunctionLiteral, start, end: cursor });
            proof {
                match spec_scan_tokens(src@, cursor as int) {
                    Ok(rest) => {
                        assert(tokens@ + rest =~= old_tokens + (seq![SpecialToken { kind: SpecialTokenKind::FunctionLiteral, start, end: cursor }] + rest));
                    },
                    Err(e) => {},
                }
            }
            continue;
        }
        if is_ident_start(ch) {
            let start = cursor;
            let (end, segments) = scan_reference_path(&src, cursor);
            let kind = if segments.len() == 1 {
                SpecialTokenKind::IdentRef
            } else {
                SpecialTokenKind::QualifiedRef
            };
            proof {
                assert(segments@.map_values(|v: Vec<char>| v@).len() == segments@.len());
            }
            let ghost old_tokens = tokens@;
            tokens.push(SpecialToken { kind, start, end });
            proof {
                match spec_scan_tokens(src@, end as int) {
                    Ok(rest) => {
                        assert(tokens@ + rest =~= old_tokens + (seq![SpecialToken { kind, start, end }] + rest));
                    },
                    Err(e) => {},
                }
            }
            cursor = end;
            continue;
        }
        cursor = cursor + 1;
    }
    proof {
        assert(tokens@ + Seq::<SpecialToken>::empty() =~= tokens@);
    }
    let raw = string_from_chars(&src);
    let expr = match kind {
        ExprKind::Rhai => ExprSource::rhai(raw),
        ExprKind::TemplateHole => ExprSource::template_hole(raw),
    };
    Ok(expr.with_tokens(tokens))
}

} // verus!
