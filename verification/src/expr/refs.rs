//! Rewriting of references to module vars and of calls to module functions
//! in expression text.
use vstd::prelude::*;
use crate::collections::NameSet;
use crate::const_eval::spec_join_dots;
use crate::const_value::{debug_str, spec_debug_str};
use crate::errors::{ErrorView, ScriptLangError};
use crate::expr::rewrite::{
    is_map_key, is_property_access, join_segments, lemma_match_paren, scan_matching_paren,
    spec_is_map_key, spec_is_property_access, spec_match_paren, spec_template_out, spec_text_out,
};
use crate::expr::scan::{
    lemma_reference_path, lemma_skip_quoted, scan_quoted, scan_reference_path, spec_reference_path,
    spec_skip_quoted,
};
use crate::expr::template::{SegmentView, TextSegment, TextTemplate};
use crate::names::{resolved_var_placeholder, spec_qualified_member_name, spec_resolved_var_placeholder};
use crate::resolve::{MemberSearchKind, ResolverView, ScopeResolver};
use crate::text::{
    chars_of, is_ident_start, is_whitespace, push_all, push_range, spec_is_ident_start,
    spec_is_whitespace, string_from_chars,
};

use crate::names::{first_byte_char, spec_first_byte_char};

verus! {

/// What the identifier path at `i` becomes: a name that resolves to a
/// module var becomes that var's placeholder, unless it is an object key;
/// shadowed names and property names stay, and so do names that resolve to
/// nothing.
pub open spec fn spec_var_piece(s: Seq<char>, i: int, r: ResolverView, shadowed: Set<Seq<char>>) -> Result<Seq<char>, ErrorView> {
    let path = spec_reference_path(s, i);
    let raw = s.subrange(i, path.0);
    let segs = path.1;
    if shadowed.contains(segs[0]) || spec_is_property_access(s, i) {
        Ok(raw)
    } else {
        let name = if segs.len() == 1 { segs[0] } else { segs.last() };
        let resolved = if segs.len() == 1 {
            r.spec_short_ref(MemberSearchKind::Var, segs[0])
        } else {
            r.spec_qualified_ref(MemberSearchKind::Var, spec_join_dots(segs.drop_last()), segs.last())
        };
        match resolved {
            Err(e) => Err(e),
            Ok(Some(m)) => if spec_is_map_key(s, path.0) {
                Ok(raw)
            } else {
                Ok(spec_resolved_var_placeholder(spec_qualified_member_name(m, name)))
            },
            Ok(None) => Ok(raw),
        }
    }
}

/// The text `s[i..]` with its var references replaced by placeholders (see
/// `spec_var_piece`); quoted strings are copied unchanged.
pub open spec fn spec_vars_from(s: Seq<char>, i: int, r: ResolverView, shadowed: Set<Seq<char>>) -> Result<Seq<char>, ErrorView>
    decreases s.len() - i,
{
    if i < 0 || i >= s.len() {
        Ok(Seq::empty())
    } else if s[i] == '"' || s[i] == '\'' {
        proof {
            lemma_skip_quoted(s, i + 1, s[i]);
        }
        match spec_skip_quoted(s, i + 1, s[i]) {
            Some(end) => match spec_vars_from(s, end, r, shadowed) {
                Ok(rest) => Ok(s.subrange(i, end) + rest),
                Err(e) => Err(e),
            },
            None => Err(ErrorView::UnterminatedStringLiteral),
        }
    } else if spec_is_ident_start(s[i]) {
        proof {
            lemma_reference_path(s, i);
        }
        match spec_var_piece(s, i, r, shadowed) {
            Err(e) => Err(e),
            Ok(p) => match spec_vars_from(s, spec_reference_path(s, i).0, r, shadowed) {
                Ok(rest) => Ok(p + rest),
                Err(e) => Err(e),
            },
        }
    } else {
        match spec_vars_from(s, i + 1, r, shadowed) {
            Ok(rest) => Ok(seq![spec_first_byte_char(s[i])] + rest),
            Err(e) => Err(e),
        }
    }
}

/// Replaces each reference to a module var in an expression by the var's
/// placeholder.
///
/// Outside quotes the text is walked one UTF-8 byte at a time, so a character
/// of two bytes is written as its first byte read as a character
/// ([`spec_first_byte_char`]); longer characters are copied as they stand.
pub fn rewrite_expr_with_vars(source: &str, resolver: &ScopeResolver<'_>, shadowed_names: &NameSet) -> (r: Result<String, ScriptLangError>)
    requires
        shadowed_names.wf(),
    ensures
        spec_text_out(r) == spec_vars_from(source@, 0, resolver@, shadowed_names.view_set()),
{
    let src = chars_of(source);
    let mut out: Vec<char> = Vec::new();
    let mut cursor: usize = 0;
    while cursor < src.len()
        invariant
            src@ == source@,
            shadowed_names.wf(),
            cursor <= src@.len(),
            match spec_vars_from(src@, cursor as int, resolver@, shadowed_names.view_set()) {
                Ok(rest) => spec_vars_from(src@, 0, resolver@, shadowed_names.view_set()) == Ok::<Seq<char>, ErrorView>(out@ + rest),
                Err(e) => spec_vars_from(src@, 0, resolver@, shadowed_names.view_set()) == Err::<Seq<char>, ErrorView>(e),
            },
        decreases src@.len() - cursor,
    {
        let ghost old_out = out@;
        let ch = src[cursor];
        if ch == '"' || ch == '\'' {
            proof {
                lemma_skip_quoted(src@, cursor + 1, ch);
            }
            let end = match scan_quoted(&src, cursor) {
                Ok(end) => end,
                Err(e) => {
                    return Err(e);
                },
            };
            push_range(&mut out, &src, cursor, end);
            proof {
                match spec_vars_from(src@, end as int, resolver@, shadowed_names.view_set()) {
                    Ok(rest) => {
                        assert(out@ + rest =~= old_out + (src@.subrange(cursor as int, end as int) + rest));
                    },
                    Err(e) => {},
                }
            }
            cursor = end;
            continue;
        }
        if is_ident_start(ch) {
            let (end, segments) = scan_reference_path(&src, cursor);
            let ghost segs = segments@.map_values(|v: Vec<char>| v@);
            let ghost raw = src@.subrange(cursor as int, end as int);
            assert(segs.len() == segments@.len());
            let first = string_from_chars(&segments[0]);
            assert(first@ == segs[0]);
            let n = segments.len();
            let ghost sp = spec_var_piece(src@, cursor as int, resolver@, shadowed_names.view_set());
            let ghost mut expect: Seq<char> = Seq::empty();
            if shadowed_names.contains(first.as_str()) || is_property_access(&src, cursor) {
                push_range(&mut out, &src, cursor, end);
                proof {
                    expect = raw;
                }
            } else {
                let resolved = if n == 1 {
                    resolver.resolve_short_var_ref(first.as_str())
                } else {
                    let target_chars = join_segments(&segments, n - 1);
                    assert(segs.take(n - 1) =~= segs.drop_last());
                    let target = string_from_chars(&target_chars);
                    let name = string_from_chars(&segments[n - 1]);
                    assert(name@ == segs.last());
                    resolver.resolve_qualified_var_ref(target.as_str(), name.as_str())
                };
                match resolved {
                    Err(e) => {
                        return Err(e);
                    },
                    Ok(Some(target)) => {
                        if is_map_key(&src, end) {
                            push_range(&mut out, &src, cursor, end);
                            proof {
                                expect = raw;
                            }
                        } else {
                            let q = target.qualified_name();
                            let placeholder = resolved_var_placeholder(q.as_str());
                            push_all(&mut out, &chars_of(placeholder.as_str()));
                            proof {
                                expect = placeholder@;
                            }
                        }
                    },
                    Ok(None) => {
                        push_range(&mut out, &src, cursor, end);
                        proof {
                            expect = raw;
                        }
                    },
                }
            }
            proof {
                assert(sp == Ok::<Seq<char>, ErrorView>(expect));
                assert(out@ =~= old_out + expect);
                match spec_vars_from(src@, end as int, resolver@, shadowed_names.view_set()) {
                    Ok(rest) => {
                        assert(out@ + rest =~= old_out + (expect + rest));
                    },
                    Err(e) => {},
                }
            }
            cursor = end;
            continue;
        }
        out.push(first_byte_char(ch));
        proof {
            match spec_vars_from(src@, cursor + 1, resolver@, shadowed_names.view_set()) {
                Ok(rest) => {
                    assert(out@ + rest =~= old_out + (seq![spec_first_byte_char(ch)] + rest));
                },
                Err(e) => {},
            }
        }
        cursor = cursor + 1;
    }
    assert(out@ + Seq::<char>::empty() =~= out@);
    Ok(string_from_chars(&out))
}

/// The template with the var references of each hole replaced; the first
/// failing hole's error.
pub open spec fn spec_rewrite_template_vars(segs: Seq<SegmentView>, r: ResolverView, shadowed: Set<Seq<char>>) -> Result<Seq<SegmentView>, ErrorView>
    decreases segs.len(),
{
    if segs.len() == 0 {
        Ok(Seq::empty())
    } else {
        let first: Result<SegmentView, ErrorView> = match segs[0] {
            SegmentView::Literal(t) => Ok(SegmentView::Literal(t)),
            SegmentView::Expr(e) => match spec_vars_from(e, 0, r, shadowed) {
                Ok(x) => Ok(SegmentView::Expr(x)),
                Err(err) => Err(err),
            },
        };
        match first {
            Err(err) => Err(err),
            Ok(f) => match spec_rewrite_template_vars(segs.drop_first(), r, shadowed) {
                Ok(rest) => Ok(seq![f] + rest),
                Err(err) => Err(err),
            },
        }
    }
}

/// Replaces the var references in each hole of a template.
pub fn rewrite_template_with_vars(template: TextTemplate, resolver: &ScopeResolver<'_>, shadowed_names: &NameSet) -> (r: Result<TextTemplate, ScriptLangError>)
    requires
        shadowed_names.wf(),
    ensures
        spec_template_out(r) == spec_rewrite_template_vars(template@, resolver@, shadowed_names.view_set()),
{
    let mut segments: Vec<TextSegment> = Vec::new();
    let mut i: usize = 0;
    assert(template@.skip(0) =~= template@);
    assert(segments@.map_values(|x: TextSegment| x@) =~= Seq::<SegmentView>::empty());
    proof {
        match spec_rewrite_template_vars(template@, resolver@, shadowed_names.view_set()) {
            Ok(rest) => {
                assert(Seq::<SegmentView>::empty() + rest =~= rest);
            },
            Err(e) => {},
        }
    }
    while i < template.segments.len()
        invariant
            shadowed_names.wf(),
            i <= template.segments@.len(),
            match spec_rewrite_template_vars(template@.skip(i as int), resolver@, shadowed_names.view_set()) {
                Ok(rest) => spec_rewrite_template_vars(template@, resolver@, shadowed_names.view_set()) == Ok::<Seq<SegmentView>, ErrorView>(segments@.map_values(|x: TextSegment| x@) + rest),
                Err(e) => spec_rewrite_template_vars(template@, resolver@, shadowed_names.view_set()) == Err::<Seq<SegmentView>, ErrorView>(e),
            },
        decreases template.segments@.len() - i,
    {
        let ghost old_view = segments@.map_values(|x: TextSegment| x@);
        let ghost tail = template@.skip(i as int);
        assert(tail[0] == template.segments@[i as int]@);
        assert(tail.drop_first() =~= template@.skip(i + 1));
        let seg = match &template.segments[i] {
            TextSegment::Literal(text) => TextSegment::Literal(text.clone()),
            TextSegment::Expr(expr) => {
                match rewrite_expr_with_vars(expr.as_str(), resolver, shadowed_names) {
                    Ok(x) => TextSegment::Expr(x),
                    Err(e) => {
                        return Err(e);
                    },
                }
            },
        };
        let ghost f = seg@;
        segments.push(seg);
        proof {
            assert(segments@.map_values(|x: TextSegment| x@) =~= old_view.push(f));
            match spec_rewrite_template_vars(template@.skip(i + 1), resolver@, shadowed_names.view_set()) {
                Ok(rest) => {
                    assert(segments@.map_values(|x: TextSegment| x@) + rest =~= old_view + (seq![f] + rest));
                },
                Err(e) => {},
            }
        }
        i = i + 1;
    }
    proof {
        assert(template@.skip(i as int).len() == 0);
        assert(segments@.map_values(|x: TextSegment| x@) + Seq::<SegmentView>::empty() =~= segments@.map_values(|x: TextSegment| x@));
    }
    Ok(TextTemplate { segments })
}

/// First index at or after `i` that is not white space (`s.len()` if none).
pub open spec fn spec_ws_end(s: Seq<char>, i: int) -> int
    decreases s.len() - i,
{
    if i < 0 || i >= s.len() || !spec_is_whitespace(s[i]) {
        i
    } else {
        spec_ws_end(s, i + 1)
    }
}

pub proof fn lemma_ws_end(s: Seq<char>, i: int)
    requires
        0 <= i <= s.len(),
    ensures
        i <= spec_ws_end(s, i) <= s.len(),
    decreases s.len() - i,
{
    if i < s.len() && spec_is_whitespace(s[i]) {
        lemma_ws_end(s, i + 1);
    }
}

/// The function a call's callee names, unless it is shadowed or a property
/// name.
pub open spec fn spec_callee(s: Seq<char>, i: int, r: ResolverView, shadowed: Set<Seq<char>>) -> Result<Option<Seq<char>>, ErrorView> {
    let segs = spec_reference_path(s, i).1;
    if shadowed.contains(segs[0]) || spec_is_property_access(s, i) {
        Ok(None)
    } else if segs.len() == 1 {
        match r.spec_short_ref(MemberSearchKind::Function, segs[0]) {
            Ok(Some(m)) => Ok(Some(spec_qualified_member_name(m, segs[0]))),
            Ok(None) => Ok(None),
            Err(e) => Err(e),
        }
    } else {
        match r.spec_qualified_ref(MemberSearchKind::Function, spec_join_dots(segs.drop_last()), segs.last()) {
            Ok(Some(m)) => Ok(Some(spec_qualified_member_name(m, segs.last()))),
            Ok(None) => Ok(None),
            Err(e) => Err(e),
        }
    }
}

/// A call written `callee(args)` when the callee is a module function:
/// `__sl_call("module.fn", [args])`.
pub open spec fn spec_call_text(target: Seq<char>, args: Seq<char>) -> Seq<char> {
    "__sl_call("@ + spec_debug_str(target) + ", ["@ + args + "])"@
}

/// The text `s[i..]` with each call of a module function rewritten into a
/// runtime call, arguments rewritten first; other calls keep their callee
/// and get their arguments rewritten; quoted strings stay.
pub open spec fn spec_calls_from(s: Seq<char>, i: int, r: ResolverView, shadowed: Set<Seq<char>>) -> Result<Seq<char>, ErrorView>
    decreases s.len(), s.len() - i,
{
    if i < 0 || i >= s.len() {
        Ok(Seq::empty())
    } else if s[i] == '"' || s[i] == '\'' {
        proof {
            lemma_skip_quoted(s, i + 1, s[i]);
        }
        match spec_skip_quoted(s, i + 1, s[i]) {
            Some(end) => match spec_calls_from(s, end, r, shadowed) {
                Ok(rest) => Ok(s.subrange(i, end) + rest),
                Err(e) => Err(e),
            },
            None => Err(ErrorView::UnterminatedStringLiteral),
        }
    } else if spec_is_ident_start(s[i]) && spec_ws_end(s, spec_reference_path(s, i).0) < s.len()
        && s[spec_ws_end(s, spec_reference_path(s, i).0)] == '(' {
        proof {
            lemma_reference_path(s, i);
            lemma_ws_end(s, spec_reference_path(s, i).0);
        }
        let end = spec_reference_path(s, i).0;
        let open = spec_ws_end(s, end);
        proof {
            lemma_match_paren(s, open + 1, 1);
        }
        match spec_match_paren(s, open + 1, 1) {
            Err(e) => Err(e),
            Ok(close) => match spec_calls_from(s.subrange(open + 1, close - 1), 0, r, shadowed) {
                Err(e) => Err(e),
                Ok(inner) => match spec_callee(s, i, r, shadowed) {
                    Err(e) => Err(e),
                    Ok(target) => {
                        let piece = match target {
                            Some(t) => spec_call_text(t, inner),
                            None => s.subrange(i, open) + seq!['('] + inner + seq![')'],
                        };
                        match spec_calls_from(s, close, r, shadowed) {
                            Ok(rest) => Ok(piece + rest),
                            Err(e) => Err(e),
                        }
                    },
                },
            },
        }
    } else {
        match spec_calls_from(s, i + 1, r, shadowed) {
            Ok(rest) => Ok(seq![spec_first_byte_char(s[i])] + rest),
            Err(e) => Err(e),
        }
    }
}

pub open spec fn spec_chars_out(r: Result<Vec<char>, ScriptLangError>) -> Result<Seq<char>, ErrorView> {
    match r {
        Ok(t) => Ok(t@),
        Err(e) => Err(e@),
    }
}

fn rewrite_calls_inner(src: &Vec<char>, resolver: &ScopeResolver<'_>, shadowed_names: &NameSet) -> (r: Result<Vec<char>, ScriptLangError>)
    requires
        shadowed_names.wf(),
    ensures
        spec_chars_out(r) == spec_calls_from(src@, 0, resolver@, shadowed_names.view_set()),
    decreases src@.len(),
{
    let mut out: Vec<char> = Vec::new();
    let mut cursor: usize = 0;
    while cursor < src.len()
        invariant
            shadowed_names.wf(),
            cursor <= src@.len(),
            match spec_calls_from(src@, cursor as int, resolver@, shadowed_names.view_set()) {
                Ok(rest) => spec_calls_from(src@, 0, resolver@, shadowed_names.view_set()) == Ok::<Seq<char>, ErrorView>(out@ + rest),
                Err(e) => spec_calls_from(src@, 0, resolver@, shadowed_names.view_set()) == Err::<Seq<char>, ErrorView>(e),
            },
        decreases src@.len() - cursor,
    {
        let ghost old_out = out@;
        let ch = src[cursor];
        if ch == '"' || ch == '\'' {
            proof {
                lemma_skip_quoted(src@, cursor + 1, ch);
            }
            let end = match scan_quoted(src, cursor) {
                Ok(end) => end,
                Err(e) => {
                    return Err(e);
                },
            };
            push_range(&mut out, src, cursor, end);
            proof {
                match spec_calls_from(src@, end as int, resolver@, shadowed_names.view_set()) {
                    Ok(rest) => {
                        assert(out@ + rest =~= old_out + (src@.subrange(cursor as int, end as int) + rest));
                    },
                    Err(e) => {},
                }
            }
            cursor = end;
            continue;
        }
        if is_ident_start(ch) {
            let (end, segments) = scan_reference_path(src, cursor);
            proof {
                lemma_ws_end(src@, end as int);
            }
            let mut open = end;
            while open < src.len() && is_whitespace(src[open])
                invariant
                    end <= open <= src@.len(),
                    spec_ws_end(src@, open as int) == spec_ws_end(src@, end as int),
                decreases src@.len() - open,
            {
                open = open + 1;
            }
            if open < src.len() && src[open] == '(' {
                proof {
                    lemma_match_paren(src@, open + 1, 1);
                }
                let close = match scan_matching_paren(src, open) {
                    Ok(c) => c,
                    Err(e) => {
                        return Err(e);
                    },
                };
                let mut inner: Vec<char> = Vec::new();
                push_range(&mut inner, src, open + 1, close - 1);
                let inner_out = match rewrite_calls_inner(&inner, resolver, shadowed_names) {
                    Ok(x) => x,
                    Err(e) => {
                        return Err(e);
                    },
                };
                let ghost segs = segments@.map_values(|v: Vec<char>| v@);
                assert(segs.len() == segments@.len());
                let first = string_from_chars(&segments[0]);
                assert(first@ == segs[0]);
                let n = segments.len();
                let resolved = if shadowed_names.contains(first.as_str()) || is_property_access(src, cursor) {
                    Ok(None)
                } else if n == 1 {
                    resolver.resolve_short_function_ref(first.as_str())
                } else {
                    let target_chars = join_segments(&segments, n - 1);
                    assert(segs.take(n - 1) =~= segs.drop_last());
                    let target = string_from_chars(&target_chars);
                    let name = string_from_chars(&segments[n - 1]);
                    assert(name@ == segs.last());
                    resolver.resolve_qualified_function_ref(target.as_str(), name.as_str())
                };
                let ghost expect: Seq<char>;
                match resolved {
                    Err(e) => {
                        return Err(e);
                    },
                    Ok(Some(target)) => {
                        proof {
                            reveal_strlit("__sl_call(");
                            reveal_strlit(", [");
                            reveal_strlit("])");
                        }
                        push_all(&mut out, &chars_of("__sl_call("));
                        let quoted = debug_str(target.as_str());
                        push_all(&mut out, &chars_of(quoted.as_str()));
                        push_all(&mut out, &chars_of(", ["));
                        push_all(&mut out, &inner_out);
                        push_all(&mut out, &chars_of("])"));
                        proof {
                            expect = spec_call_text(target@, inner_out@);
                        }
                    },
                    Ok(None) => {
                        push_range(&mut out, src, cursor, open);
                        out.push('(');
                        push_all(&mut out, &inner_out);
                        out.push(')');
                        proof {
                            expect = src@.subrange(cursor as int, open as int) + seq!['('] + inner_out@ + seq![')'];
                        }
                    },
                }
                proof {
                    assert(out@ =~= old_out + expect);
                    match spec_calls_from(src@, close as int, resolver@, shadowed_names.view_set()) {
                        Ok(rest) => {
                            assert(out@ + rest =~= old_out + (expect + rest));
                        },
                        Err(e) => {},
                    }
                }
                cursor = close;
                continue;
            }
        }
        out.push(first_byte_char(ch));
        proof {
            match spec_calls_from(src@, cursor + 1, resolver@, shadowed_names.view_set()) {
                Ok(rest) => {
                    assert(out@ + rest =~= old_out + (seq![spec_first_byte_char(ch)] + rest));
                },
                Err(e) => {},
            }
        }
        cursor = cursor + 1;
    }
    assert(out@ + Seq::<char>::empty() =~= out@);
    Ok(out)
}

/// Rewrites each call of a module function in an expression into a runtime
/// call by qualified name; arguments are rewritten the same way.
///
/// Outside quotes the text is walked one UTF-8 byte at a time, so a character
/// of two bytes is written as its first byte read as a character
/// ([`spec_first_byte_char`]); longer characters are copied as they stand.
pub fn rewrite_expr_function_calls(source: &str, resolver: &ScopeResolver<'_>, shadowed_names: &NameSet) -> (r: Result<String, ScriptLangError>)
    requires
        shadowed_names.wf(),
    ensures
        spec_text_out(r) == spec_calls_from(source@, 0, resolver@, shadowed_names.view_set()),
{
    let src = chars_of(source);
    match rewrite_calls_inner(&src, resolver, shadowed_names) {
        Ok(out) => Ok(string_from_chars(&out)),
        Err(e) => Err(e),
    }
}

} // verus!
