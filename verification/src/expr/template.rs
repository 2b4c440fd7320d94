//! Text templates: literal text with `${expr}` holes.
use vstd::prelude::*;
use crate::errors::ScriptLangError;
use crate::expr::normalize::{normalize_expr_escapes, spec_normalize_from};
use crate::expr::scan::{scan_expr_source, spec_scan_tokens};
use crate::expr::types::{ExprKind, ExprSource};
use crate::text::{
    chars_of, find_char, lemma_find_char_bounds, push_range, spec_find_char, spec_trim,
    string_from_chars, trim_range,
};

verus! {

/// A piece of a text template.
#[derive(Clone, Debug, PartialEq, Eq)]
pub enum TextSegment {
    Literal(String),
    Expr(String),
}

/// The mathematical value of a template piece.
pub enum SegmentView {
    Literal(Seq<char>),
    Expr(Seq<char>),
}

impl View for TextSegment {
    type V = SegmentView;

    open spec fn view(&self) -> SegmentView {
        match self {
            TextSegment::Literal(t) => SegmentView::Literal(t@),
            TextSegment::Expr(t) => SegmentView::Expr(t@),
        }
    }
}

/// A text template: its pieces in order.
#[derive(Clone, Debug, PartialEq, Eq)]
pub struct TextTemplate {
    pub segments: Vec<TextSegment>,
}

impl View for TextTemplate {
    type V = Seq<SegmentView>;

    open spec fn view(&self) -> Seq<SegmentView> {
        self.segments@.map_values(|seg: TextSegment| seg@)
    }
}

/// A template hole: the expression it holds.
#[derive(Clone, Debug, PartialEq, Eq)]
pub struct TemplateExprHole {
    pub expr: ExprSource,
}

impl TemplateExprHole {
    /// The hole that holds `expr`.
    pub fn new(expr: ExprSource) -> (r: Self)
        ensures
            r.expr == expr,
    {
        TemplateExprHole { expr }
    }
}

/// First index at or after `from` where `${` begins.
pub open spec fn spec_find_hole(s: Seq<char>, from: int) -> Option<int>
    decreases s.len() - from,
{
    if from < 0 || from + 1 >= s.len() {
        None
    } else if s[from] == '$' && s[from + 1] == '{' {
        Some(from)
    } else {
        spec_find_hole(s, from + 1)
    }
}

pub proof fn lemma_find_hole(s: Seq<char>, from: int)
    requires
        0 <= from,
    ensures
        spec_find_hole(s, from) matches Some(k) ==> from <= k && k + 1 < s.len() && s[k] == '$'
            && s[k + 1] == '{',
    decreases s.len() - from,
{
    if from + 1 < s.len() && !(s[from] == '$' && s[from + 1] == '{') {
        lemma_find_hole(s, from + 1);
    }
}

/// The expression text a hole's body `body` becomes: trimmed, then
/// normalized; it must also scan.
pub open spec fn spec_hole_expr(body: Seq<char>) -> Result<Seq<char>, ScriptLangError> {
    match spec_normalize_from(spec_trim(body), 0) {
        Ok(n) => match spec_scan_tokens(n, 0) {
            Ok(_) => Ok(n),
            Err(e) => Err(e),
        },
        Err(e) => Err(e),
    }
}

/// The pieces of the template text `s[cursor..]`. A `${` with no `}` after
/// it is literal text.
pub open spec fn spec_template_from(s: Seq<char>, cursor: int) -> Result<Seq<SegmentView>, ScriptLangError>
    decreases s.len() - cursor,
{
    if cursor < 0 || cursor > s.len() {
        Ok(Seq::empty())
    } else {
        match spec_find_hole(s, cursor) {
            None => if cursor < s.len() {
                Ok(seq![SegmentView::Literal(s.subrange(cursor, s.len() as int))])
            } else {
                Ok(Seq::empty())
            },
            Some(start) => {
                proof {
                    lemma_find_hole(s, cursor);
                    lemma_find_char_bounds(s, start + 2, '}');
                }
                match spec_find_char(s, start + 2, '}') {
                    None => Ok(seq![SegmentView::Literal(s.subrange(cursor, s.len() as int))]),
                    Some(end) => {
                        let prefix = if start > cursor {
                            seq![SegmentView::Literal(s.subrange(cursor, start))]
                        } else {
                            Seq::empty()
                        };
                        match spec_hole_expr(s.subrange(start + 2, end)) {
                            Ok(e) => match spec_template_from(s, end + 1) {
                                Ok(rest) => Ok(prefix + seq![SegmentView::Expr(e)] + rest),
                                Err(err) => Err(err),
                            },
                            Err(err) => Err(err),
                        }
                    },
                }
            },
        }
    }
}

/// The pieces of the template text `s`; the empty text is one empty literal.
pub open spec fn spec_text_template(s: Seq<char>) -> Result<Seq<SegmentView>, ScriptLangError> {
    match spec_template_from(s, 0) {
        Ok(segs) => if segs.len() == 0 {
            Ok(seq![SegmentView::Literal(s)])
        } else {
            Ok(segs)
        },
        Err(e) => Err(e),
    }
}

fn find_hole(src: &[char], from: usize) -> (r: Option<usize>)
    ensures
        r matches Some(k) ==> spec_find_hole(src@, from as int) == Some(k as int),
        r is None ==> spec_find_hole(src@, from as int) is None,
    decreases src@.len() - from,
{
    if src.len() < 2 || from >= src.len() - 1 {
        None
    } else if src[from] == '$' && src[from + 1] == '{' {
        Some(from)
    } else {
        find_hole(src, from + 1)
    }
}

/// Splits template text into literal pieces and `${...}` holes; each hole's
/// text is trimmed and normalized, and must scan as an expression.
pub fn parse_text_template(source: &str) -> (r: Result<TextTemplate, ScriptLangError>)
    ensures
        r matches Ok(t) ==> spec_text_template(source@) == Ok::<Seq<SegmentView>, ScriptLangError>(t@),
        r matches Err(e) ==> spec_text_template(source@) == Err::<Seq<SegmentView>, ScriptLangError>(e),
{
    let src = chars_of(source);
    let mut segments: Vec<TextSegment> = Vec::new();
    let mut cursor: usize = 0;
    let mut done = false;
    while !done
        invariant
            src@ == source@,
            cursor <= src@.len(),
            !done ==> match spec_template_from(src@, cursor as int) {
                Ok(rest) => spec_template_from(src@, 0) == Ok::<Seq<SegmentView>, ScriptLangError>(
                    segments@.map_values(|seg: TextSegment| seg@) + rest,
                ),
                Err(e) => spec_template_from(src@, 0) == Err::<Seq<SegmentView>, ScriptLangError>(e),
            },
            done ==> spec_template_from(src@, 0) == Ok::<Seq<SegmentView>, ScriptLangError>(
                segments@.map_values(|seg: TextSegment| seg@),
            ),
        decreases src@.len() - cursor + (if done { 0int } else { 1int }),
    {
        let ghost old_view = segments@.map_values(|seg: TextSegment| seg@);
        match find_hole(&src, cursor) {
            None => {
                if cursor < src.len() {
                    let mut lit: Vec<char> = Vec::new();
                    push_range(&mut lit, &src, cursor, src.len());
                    segments.push(TextSegment::Literal(string_from_chars(&lit)));
                    assert(segments@.map_values(|seg: TextSegment| seg@) =~= old_view + seq![
                        SegmentView::Literal(src@.subrange(cursor as int, src@.len() as int)),
                    ]);
                } else {
                    assert(segments@.map_values(|seg: TextSegment| seg@) =~= old_view
                        + Seq::<SegmentView>::empty());
                }
                done = true;
            },
            Some(start) => {
                proof {
                    lemma_find_hole(src@, cursor as int);
                    lemma_find_char_bounds(src@, start + 2, '}');
                }
                match find_char(&src, start + 2, '}') {
                    None => {
                        let mut lit: Vec<char> = Vec::new();
                        push_range(&mut lit, &src, cursor, src.len());
                        segments.push(TextSegment::Literal(string_from_chars(&lit)));
                        assert(segments@.map_values(|seg: TextSegment| seg@) =~= old_view + seq![
                            SegmentView::Literal(src@.subrange(cursor as int, src@.len() as int)),
                        ]);
                        done = true;
                    },
                    Some(end) => {
                        let ghost prefix = if start > cursor {
                            seq![SegmentView::Literal(src@.subrange(cursor as int, start as int))]
                        } else {
                            Seq::empty()
                        };
                        if start > cursor {
                            let mut lit: Vec<char> = Vec::new();
                            push_range(&mut lit, &src, cursor, start);
                            segments.push(TextSegment::Literal(string_from_chars(&lit)));
                        }
                        assert(segments@.map_values(|seg: TextSegment| seg@) =~= old_view + prefix);
                        let trimmed = trim_range(&src, start + 2, end);
                        let trimmed_str = string_from_chars(&trimmed);
                        let normalized = match normalize_expr_escapes(trimmed_str.as_str()) {
                            Ok(n) => n,
                            Err(e) => {
                                return Err(e);
                            },
                        };
                        let hole = match scan_expr_source(normalized.as_str(), ExprKind::TemplateHole) {
                            Ok(expr) => TemplateExprHole::new(expr),
                            Err(e) => {
                                return Err(e);
                            },
                        };
                        let ghost mid_view = segments@.map_values(|seg: TextSegment| seg@);
                        segments.push(TextSegment::Expr(hole.expr.raw));
                        assert(segments@.map_values(|seg: TextSegment| seg@) =~= mid_view + seq![
                            SegmentView::Expr(normalized@),
                        ]);
                        proof {
                            match spec_template_from(src@, end + 1) {
                                Ok(rest) => {
                                    assert(segments@.map_values(|seg: TextSegment| seg@) + rest
                                        =~= old_view + (prefix + seq![SegmentView::Expr(normalized@)] + rest));
                                },
                                Err(e) => {},
                            }
                        }
                        assert(end < src.len());
                        cursor = end + 1;
                    },
                }
            },
        }
    }
    if segments.len() == 0 {
        segments.push(TextSegment::Literal(string_from_chars(&src)));
        assert(segments@.map_values(|seg: TextSegment| seg@) =~= seq![SegmentView::Literal(src@)]);
    }
    Ok(TextTemplate { segments })
}

} // verus!
