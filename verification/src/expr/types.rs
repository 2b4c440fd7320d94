//! Shared expression types.
use vstd::prelude::*;

verus! {

/// Where an expression stands: a plain expression or a `${...}` template hole.
#[derive(Clone, Copy, Debug, PartialEq, Eq)]
pub enum ExprKind {
    Rhai,
    TemplateHole,
}

/// The kinds of tokens the expression scanner records.
#[derive(Clone, Copy, Debug, PartialEq, Eq)]
pub enum SpecialTokenKind {
    FunctionLiteral,
    ScriptLiteral,
    IdentRef,
    QualifiedRef,
}

/// A recorded token: its kind and its span `[start, end)` in the source.
#[derive(Clone, Debug, PartialEq, Eq)]
pub struct SpecialToken {
    pub kind: SpecialTokenKind,
    pub start: usize,
    pub end: usize,
}

/// An expression's text, where it stands, and the tokens found in it.
#[derive(Clone, Debug, PartialEq, Eq)]
pub struct ExprSource {
    pub raw: String,
    pub kind: ExprKind,
    pub tokens: Vec<SpecialToken>,
}

impl ExprSource {
    /// A plain expression with no tokens recorded yet.
    pub fn rhai(raw: String) -> (r: Self)
        ensures
            r.raw == raw,
            r.kind == ExprKind::Rhai,
            r.tokens@.len() == 0,
    {
        ExprSource { raw, kind: ExprKind::Rhai, tokens: Vec::new() }
    }

    /// A template hole with no tokens recorded yet.
    pub fn template_hole(raw: String) -> (r: Self)
        ensures
            r.raw == raw,
            r.kind == ExprKind::TemplateHole,
            r.tokens@.len() == 0,
    {
        ExprSource { raw, kind: ExprKind::TemplateHole, tokens: Vec::new() }
    }

    /// The same expression with `tokens` as its tokens.
    pub fn with_tokens(self, tokens: Vec<SpecialToken>) -> (r: Self)
        ensures
            r.raw == self.raw,
            r.kind == self.kind,
            r.tokens == tokens,
    {
        let mut s = self;
        s.tokens = tokens;
        s
    }
}

} // verus!
