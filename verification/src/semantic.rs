//! Semantic analysis of scripts: each statement form becomes a semantic
//! statement whose expressions have consts, script literals, function calls
//! and var references resolved.
use vstd::prelude::*;
use crate::classify::str_is;
use crate::collections::{NameMap, NameSet};
use crate::const_eval::spec_env_view;
use crate::const_value::{ConstValue, ConstView};
use crate::errors::{DeclaredType, ErrorView, FormIssue, FormIssueView, ScriptLangError};
use crate::expr::normalize::{normalize_expr_escapes, spec_normalize_from};
use crate::expr::refs::{
    rewrite_expr_function_calls, rewrite_expr_with_vars, rewrite_template_with_vars, spec_calls_from,
    spec_rewrite_template_vars, spec_vars_from,
};
use crate::expr::rewrite::{
    rewrite_expr_with_consts, rewrite_special_literals, rewrite_template_special_literals,
    rewrite_template_with_consts, spec_rewrite_consts_from, spec_rewrite_special,
    spec_rewrite_template_consts, spec_rewrite_template_special,
};
use crate::expr::template::{SegmentView, TextTemplate, parse_text_template, spec_text_template};
use crate::form::{
    attr, body_expr, body_template, child_forms, error_at, lemma_child_forms_sub, required_attr,
    spec_attr, spec_body_expr, spec_body_template, spec_child_forms, spec_error_at, Form,
};
use crate::resolve::{ResolverView, ScopeResolver};

verus! {

/// A statement of a script after analysis.
#[derive(Debug, PartialEq, Eq)]
pub enum SemanticStmt {
    Temp { name: String, declared_type: DeclaredType, expr: String },
    Code { code: String },
    Text { template: TextTemplate, tag: Option<String> },
    While { when: String, skip_loop_control_capture: bool, body: Vec<SemanticStmt> },
    Break,
    Continue,
    Choice { prompt: Option<TextTemplate>, options: Vec<SemanticChoiceOption> },
    Goto { expr: String },
    End,
}

/// An option of a choice: its text and its body.
#[derive(Debug, PartialEq, Eq)]
pub struct SemanticChoiceOption {
    pub text: TextTemplate,
    pub body: Vec<SemanticStmt>,
}

/// A script after analysis.
#[derive(Debug, PartialEq, Eq)]
pub struct SemanticScript {
    pub name: String,
    pub body: Vec<SemanticStmt>,
}

/// A module var after analysis: its initializer with references resolved.
#[derive(Debug, PartialEq, Eq)]
pub struct SemanticVar {
    pub name: String,
    pub declared_type: DeclaredType,
    pub expr: String,
}

/// A function after analysis.
#[derive(Debug, PartialEq, Eq)]
pub struct SemanticFunction {
    pub name: String,
    pub param_names: Vec<String>,
    pub return_type: DeclaredType,
    pub body: String,
}

/// A module after analysis: its functions, vars and scripts in source order.
#[derive(Debug, PartialEq, Eq)]
pub struct SemanticModule {
    pub name: String,
    pub functions: Vec<SemanticFunction>,
    pub vars: Vec<SemanticVar>,
    pub scripts: Vec<SemanticScript>,
}

/// A program after analysis: its modules in program order.
#[derive(Debug, PartialEq, Eq)]
pub struct SemanticProgram {
    pub modules: Vec<SemanticModule>,
}

/// The mathematical value of a statement.
pub enum StmtView {
    Temp { name: Seq<char>, declared_type: DeclaredType, expr: Seq<char> },
    Code { code: Seq<char> },
    Text { template: Seq<SegmentView>, tag: Option<Seq<char>> },
    While { when: Seq<char>, skip_loop_control_capture: bool, body: Seq<StmtView> },
    Break,
    Continue,
    Choice { prompt: Option<Seq<SegmentView>>, options: Seq<(Seq<SegmentView>, Seq<StmtView>)> },
    Goto { expr: Seq<char> },
    End,
}

pub open spec fn spec_stmt_views(v: Seq<SemanticStmt>) -> Seq<StmtView>
    decreases v,
{
    if v.len() == 0 {
        Seq::empty()
    } else {
        spec_stmt_views(v.drop_last()).push(spec_stmt_view(v.last()))
    }
}

pub open spec fn spec_option_views(v: Seq<SemanticChoiceOption>) -> Seq<(Seq<SegmentView>, Seq<StmtView>)>
    decreases v,
{
    if v.len() == 0 {
        Seq::empty()
    } else {
        spec_option_views(v.drop_last()).push((v.last().text@, spec_stmt_views(v.last().body@)))
    }
}

pub open spec fn spec_stmt_view(s: SemanticStmt) -> StmtView
    decreases s,
{
    match s {
        SemanticStmt::Temp { name, declared_type, expr } => StmtView::Temp { name: name@, declared_type, expr: expr@ },
        SemanticStmt::Code { code } => StmtView::Code { code: code@ },
        SemanticStmt::Text { template, tag } => StmtView::Text {
            template: template@,
            tag: match tag {
                Some(t) => Some(t@),
                None => None,
            },
        },
        SemanticStmt::While { when, skip_loop_control_capture, body } => StmtView::While {
            when: when@,
            skip_loop_control_capture,
            body: spec_stmt_views(body@),
        },
        SemanticStmt::Break => StmtView::Break,
        SemanticStmt::Continue => StmtView::Continue,
        SemanticStmt::Choice { prompt, options } => StmtView::Choice {
            prompt: match prompt {
                Some(p) => Some(p@),
                None => None,
            },
            options: spec_option_views(options@),
        },
        SemanticStmt::Goto { expr } => StmtView::Goto { expr: expr@ },
        SemanticStmt::End => StmtView::End,
    }
}

impl View for SemanticStmt {
    type V = StmtView;

    open spec fn view(&self) -> StmtView {
        spec_stmt_view(*self)
    }
}

pub proof fn lemma_stmt_views_push(v: Seq<SemanticStmt>, s: SemanticStmt)
    ensures
        spec_stmt_views(v.push(s)) == spec_stmt_views(v).push(spec_stmt_view(s)),
{
    assert(v.push(s).drop_last() =~= v);
}

pub proof fn lemma_option_views_push(v: Seq<SemanticChoiceOption>, o: SemanticChoiceOption)
    ensures
        spec_option_views(v.push(o)) == spec_option_views(v).push((o.text@, spec_stmt_views(o.body@))),
{
    assert(v.push(o).drop_last() =~= v);
}

/// The type a declared-type name stands for.
pub open spec fn spec_declared_type_of(name: Seq<char>) -> Option<DeclaredType> {
    if name == "array"@ {
        Some(DeclaredType::Array)
    } else if name == "bool"@ {
        Some(DeclaredType::Bool)
    } else if name == "function"@ {
        Some(DeclaredType::Function)
    } else if name == "int"@ {
        Some(DeclaredType::Int)
    } else if name == "object"@ {
        Some(DeclaredType::Object)
    } else if name == "script"@ {
        Some(DeclaredType::Script)
    } else if name == "string"@ {
        Some(DeclaredType::String)
    } else {
        None
    }
}

/// The declared type a `type` attribute of a `head` form names: a missing
/// attribute and an unknown name are errors.
pub open spec fn spec_parse_declared_type(type_text: Option<Seq<char>>, head: Seq<char>) -> Result<DeclaredType, FormIssueView> {
    match type_text {
        None => Err(FormIssueView::MissingAttr(head, "type"@)),
        Some(t) => match spec_declared_type_of(t) {
            Some(d) => Ok(d),
            None => Err(FormIssueView::UnsupportedType(t)),
        },
    }
}

/// The declared type a `type` attribute names.
pub fn parse_declared_type_name(type_text: Option<&str>, head: &str) -> (r: Result<DeclaredType, FormIssue>)
    ensures
        match r {
            Ok(d) => spec_parse_declared_type(
                match type_text {
                    Some(t) => Some(t@),
                    None => None,
                },
                head@,
            ) == Ok::<DeclaredType, FormIssueView>(d),
            Err(i) => spec_parse_declared_type(
                match type_text {
                    Some(t) => Some(t@),
                    None => None,
                },
                head@,
            ) == Err::<DeclaredType, FormIssueView>(i@),
        },
{
    match type_text {
        None => Err(FormIssue::MissingAttr(head.to_string(), "type".to_string())),
        Some(t) => {
            if str_is(t, "array") {
                Ok(DeclaredType::Array)
            } else if str_is(t, "bool") {
                Ok(DeclaredType::Bool)
            } else if str_is(t, "function") {
                Ok(DeclaredType::Function)
            } else if str_is(t, "int") {
                Ok(DeclaredType::Int)
            } else if str_is(t, "object") {
                Ok(DeclaredType::Object)
            } else if str_is(t, "script") {
                Ok(DeclaredType::Script)
            } else if str_is(t, "string") {
                Ok(DeclaredType::String)
            } else {
                Err(FormIssue::UnsupportedType(t.to_string()))
            }
        },
    }
}

/// The declared type of a form, from its `type` attribute.
pub open spec fn spec_declared_type_form(f: Form) -> Result<DeclaredType, ErrorView> {
    match spec_parse_declared_type(spec_attr(f, "type"@), f.head@) {
        Ok(d) => Ok(d),
        Err(i) => Err(spec_error_at(f, i)),
    }
}

/// The declared type of a form; errors are located at the form.
pub fn parse_declared_type_form(form: &Form) -> (r: Result<DeclaredType, ScriptLangError>)
    ensures
        match r {
            Ok(d) => spec_declared_type_form(*form) == Ok::<DeclaredType, ErrorView>(d),
            Err(e) => spec_declared_type_form(*form) == Err::<DeclaredType, ErrorView>(e@),
        },
{
    proof {
        reveal_strlit("type");
    }
    match parse_declared_type_name(attr(form, "type"), form.head.as_str()) {
        Ok(d) => Ok(d),
        Err(issue) => Err(error_at(form, issue)),
    }
}

/// A boolean attribute: absent is `false`; `true` and `false` are read;
/// anything else is an error.
pub open spec fn spec_bool_attr(f: Form, name: Seq<char>) -> Result<bool, ErrorView> {
    match spec_attr(f, name) {
        None => Ok(false),
        Some(v) => if v == "true"@ {
            Ok(true)
        } else if v == "false"@ {
            Ok(false)
        } else {
            Err(spec_error_at(f, FormIssueView::InvalidBoolAttr(v, name)))
        },
    }
}

/// A boolean attribute of a form.
pub fn bool_attr(form: &Form, name: &str) -> (r: Result<bool, ScriptLangError>)
    ensures
        match r {
            Ok(b) => spec_bool_attr(*form, name@) == Ok::<bool, ErrorView>(b),
            Err(e) => spec_bool_attr(*form, name@) == Err::<bool, ErrorView>(e@),
        },
{
    match attr(form, name) {
        None => Ok(false),
        Some(v) => {
            if str_is(v, "true") {
                Ok(true)
            } else if str_is(v, "false") {
                Ok(false)
            } else {
                Err(error_at(form, FormIssue::InvalidBoolAttr(v.to_string(), name.to_string())))
            }
        },
    }
}

/// Whether a member form is private (`private="true"`).
pub fn is_private(form: &Form) -> (r: Result<bool, ScriptLangError>)
    ensures
        match r {
            Ok(b) => spec_bool_attr(*form, "private"@) == Ok::<bool, ErrorView>(b),
            Err(e) => spec_bool_attr(*form, "private"@) == Err::<bool, ErrorView>(e@),
        },
{
    bool_attr(form, "private")
}

/// Whether a `while` asks not to capture `break` and `continue`.
pub fn parse_skip_loop_control_capture_attr(form: &Form) -> (r: Result<bool, ScriptLangError>)
    ensures
        match r {
            Ok(b) => spec_bool_attr(*form, "__sl_skip_loop_control_capture"@) == Ok::<bool, ErrorView>(b),
            Err(e) => spec_bool_attr(*form, "__sl_skip_loop_control_capture"@) == Err::<bool, ErrorView>(e@),
        },
{
    bool_attr(form, "__sl_skip_loop_control_capture")
}

/// An expression after the passes a script expression goes through:
/// escapes normalized, consts replaced, script literals resolved, calls of
/// module functions rewritten, and (`with_vars`) var references replaced.
pub open spec fn spec_expr_pipeline(
    src: Seq<char>,
    env: Map<Seq<char>, ConstView>,
    r: ResolverView,
    blocked: Set<Seq<char>>,
    sh: Set<Seq<char>>,
    with_vars: bool,
) -> Result<Seq<char>, ErrorView> {
    match spec_normalize_from(src, 0) {
        Err(e) => Err(e@),
        Ok(n) => match spec_rewrite_consts_from(n, 0, env, r, blocked, sh) {
            Err(e) => Err(e),
            Ok(c) => match spec_rewrite_special(c, r) {
                Err(e) => Err(e),
                Ok(s) => match spec_calls_from(s, 0, r, sh) {
                    Err(e) => Err(e),
                    Ok(k) => if with_vars {
                        spec_vars_from(k, 0, r, sh)
                    } else {
                        Ok(k)
                    },
                },
            },
        },
    }
}

/// A template after its holes went through the const, literal and var
/// passes.
pub open spec fn spec_template_pipeline(
    t: Seq<SegmentView>,
    env: Map<Seq<char>, ConstView>,
    r: ResolverView,
    blocked: Set<Seq<char>>,
    sh: Set<Seq<char>>,
) -> Result<Seq<SegmentView>, ErrorView> {
    match spec_rewrite_template_consts(t, env, r, blocked, sh) {
        Err(e) => Err(e),
        Ok(a) => match spec_rewrite_template_special(a, r) {
            Err(e) => Err(e),
            Ok(b) => spec_rewrite_template_vars(b, r, sh),
        },
    }
}

/// Template text parsed, then rewritten.
pub open spec fn spec_parse_template_pipeline(
    src: Seq<char>,
    env: Map<Seq<char>, ConstView>,
    r: ResolverView,
    blocked: Set<Seq<char>>,
    sh: Set<Seq<char>>,
) -> Result<Seq<SegmentView>, ErrorView> {
    match spec_text_template(src) {
        Err(e) => Err(e@),
        Ok(t) => spec_template_pipeline(t, env, r, blocked, sh),
    }
}

pub open spec fn spec_text_out(r: Result<String, ScriptLangError>) -> Result<Seq<char>, ErrorView> {
    match r {
        Ok(t) => Ok(t@),
        Err(e) => Err(e@),
    }
}

pub open spec fn spec_template_out(r: Result<TextTemplate, ScriptLangError>) -> Result<Seq<SegmentView>, ErrorView> {
    match r {
        Ok(t) => Ok(t@),
        Err(e) => Err(e@),
    }
}

/// Runs an expression through the passes (see `spec_expr_pipeline`).
pub fn rewrite_expr_pipeline(
    source: &str,
    const_env: &NameMap<ConstValue>,
    resolver: &ScopeResolver<'_>,
    remaining_const_names: &NameSet,
    shadowed_names: &NameSet,
    with_vars: bool,
) -> (r: Result<String, ScriptLangError>)
    requires
        const_env.wf(),
        remaining_const_names.wf(),
        shadowed_names.wf(),
    ensures
        spec_text_out(r) == spec_expr_pipeline(source@, spec_env_view(*const_env), resolver@, remaining_const_names.view_set(), shadowed_names.view_set(), with_vars),
{
    let normalized = match normalize_expr_escapes(source) {
        Ok(n) => n,
        Err(e) => {
            return Err(e);
        },
    };
    let rewritten = match rewrite_expr_with_consts(normalized.as_str(), const_env, resolver, remaining_const_names, shadowed_names) {
        Ok(x) => x,
        Err(e) => {
            return Err(e);
        },
    };
    let rewritten = match rewrite_special_literals(rewritten.as_str(), resolver) {
        Ok(x) => x,
        Err(e) => {
            return Err(e);
        },
    };
    let rewritten = match rewrite_expr_function_calls(rewritten.as_str(), resolver, shadowed_names) {
        Ok(x) => x,
        Err(e) => {
            return Err(e);
        },
    };
    if with_vars {
        rewrite_expr_with_vars(rewritten.as_str(), resolver, shadowed_names)
    } else {
        Ok(rewritten)
    }
}

/// An expression of a statement: every pass, var references included.
pub fn rewrite_var_expr(
    source: &str,
    const_env: &NameMap<ConstValue>,
    resolver: &ScopeResolver<'_>,
    remaining_const_names: &NameSet,
    shadowed_names: &NameSet,
) -> (r: Result<String, ScriptLangError>)
    requires
        const_env.wf(),
        remaining_const_names.wf(),
        shadowed_names.wf(),
    ensures
        spec_text_out(r) == spec_expr_pipeline(source@, spec_env_view(*const_env), resolver@, remaining_const_names.view_set(), shadowed_names.view_set(), true),
{
    rewrite_expr_pipeline(source, const_env, resolver, remaining_const_names, shadowed_names, true)
}

/// A function body: every pass but the var references.
pub fn rewrite_function_body(
    source: &str,
    const_env: &NameMap<ConstValue>,
    resolver: &ScopeResolver<'_>,
    remaining_const_names: &NameSet,
    shadowed_names: &NameSet,
) -> (r: Result<String, ScriptLangError>)
    requires
        const_env.wf(),
        remaining_const_names.wf(),
        shadowed_names.wf(),
    ensures
        spec_text_out(r) == spec_expr_pipeline(source@, spec_env_view(*const_env), resolver@, remaining_const_names.view_set(), shadowed_names.view_set(), false),
{
    rewrite_expr_pipeline(source, const_env, resolver, remaining_const_names, shadowed_names, false)
}

/// A template of a statement, each hole through the passes.
pub fn rewrite_var_template(
    template: TextTemplate,
    const_env: &NameMap<ConstValue>,
    resolver: &ScopeResolver<'_>,
    remaining_const_names: &NameSet,
    shadowed_names: &NameSet,
) -> (r: Result<TextTemplate, ScriptLangError>)
    requires
        const_env.wf(),
        remaining_const_names.wf(),
        shadowed_names.wf(),
    ensures
        spec_template_out(r) == spec_template_pipeline(template@, spec_env_view(*const_env), resolver@, remaining_const_names.view_set(), shadowed_names.view_set()),
{
    let rewritten = match rewrite_template_with_consts(template, const_env, resolver, remaining_const_names, shadowed_names) {
        Ok(t) => t,
        Err(e) => {
            return Err(e);
        },
    };
    let rewritten = match rewrite_template_special_literals(rewritten, resolver) {
        Ok(t) => t,
        Err(e) => {
            return Err(e);
        },
    };
    rewrite_template_with_vars(rewritten, resolver, shadowed_names)
}

/// Template text parsed, then rewritten.
fn parse_and_rewrite_template(
    source: &str,
    const_env: &NameMap<ConstValue>,
    resolver: &ScopeResolver<'_>,
    remaining_const_names: &NameSet,
    shadowed_names: &NameSet,
) -> (r: Result<TextTemplate, ScriptLangError>)
    requires
        const_env.wf(),
        remaining_const_names.wf(),
        shadowed_names.wf(),
    ensures
        spec_template_out(r) == spec_parse_template_pipeline(source@, spec_env_view(*const_env), resolver@, remaining_const_names.view_set(), shadowed_names.view_set()),
{
    let template = match parse_text_template(source) {
        Ok(t) => t,
        Err(e) => {
            return Err(e);
        },
    };
    rewrite_var_template(template, const_env, resolver, remaining_const_names, shadowed_names)
}

/// A statement form analyzed, and the shadowed names after it (an `if`,
/// `while` or option body may add temps); see each head's rule below.
pub open spec fn spec_analyze_stmt(
    f: Form,
    env: Map<Seq<char>, ConstView>,
    r: ResolverView,
    blocked: Set<Seq<char>>,
    sh: Set<Seq<char>>,
) -> Result<(StmtView, Set<Seq<char>>), ErrorView>
    decreases f, 2nat, 0int,
{
    let h = f.head@;
    if h == "const"@ {
        Err(spec_error_at(f, FormIssueView::ConstNotModuleChild))
    } else if h == "import"@ {
        Err(spec_error_at(f, FormIssueView::ImportNotModuleChild))
    } else if h == "temp"@ {
        match spec_attr(f, "name"@) {
            None => Err(spec_error_at(f, FormIssueView::MissingAttr(h, "name"@))),
            Some(name) => match spec_declared_type_form(f) {
                Err(e) => Err(e),
                Ok(t) => match spec_body_expr(f) {
                    Err(e) => Err(e),
                    Ok(b) => match spec_expr_pipeline(b, env, r, blocked, sh, true) {
                        Err(e) => Err(e),
                        Ok(x) => Ok((StmtView::Temp { name, declared_type: t, expr: x }, sh)),
                    },
                },
            },
        }
    } else if h == "code"@ {
        match spec_body_expr(f) {
            Err(e) => Err(e),
            Ok(b) => match spec_expr_pipeline(b, env, r, blocked, sh, true) {
                Err(e) => Err(e),
                Ok(x) => Ok((StmtView::Code { code: x }, sh)),
            },
        }
    } else if h == "text"@ {
        match spec_body_template(f) {
            Err(e) => Err(e),
            Ok(b) => match spec_parse_template_pipeline(b, env, r, blocked, sh) {
                Err(e) => Err(e),
                Ok(t) => Ok((StmtView::Text { template: t, tag: spec_attr(f, "tag"@) }, sh)),
            },
        }
    } else if h == "while"@ {
        match spec_attr(f, "when"@) {
            None => Err(spec_error_at(f, FormIssueView::MissingAttr(h, "when"@))),
            Some(w) => match spec_expr_pipeline(w, env, r, blocked, sh, true) {
                Err(e) => Err(e),
                Ok(x) => match spec_bool_attr(f, "__sl_skip_loop_control_capture"@) {
                    Err(e) => Err(e),
                    Ok(skip) => match spec_child_forms(f) {
                        Err(e) => Err(e),
                        Ok(_) => match spec_analyze_block(f, 0, env, r, blocked, sh) {
                            Err(e) => Err(e),
                            Ok((body, sh2)) => Ok(
                                (StmtView::While { when: x, skip_loop_control_capture: skip, body }, sh2),
                            ),
                        },
                    },
                },
            },
        }
    } else if h == "break"@ || h == "continue"@ {
        match spec_child_forms(f) {
            Err(e) => Err(e),
            Ok(fs) => if fs.len() > 0 {
                Err(spec_error_at(f, if h == "break"@ { FormIssueView::BreakWithChildren } else { FormIssueView::ContinueWithChildren }))
            } else {
                Ok((if h == "break"@ { StmtView::Break } else { StmtView::Continue }, sh))
            },
        }
    } else if h == "choice"@ {
        match spec_child_forms(f) {
            Err(e) => Err(e),
            Ok(_) => match spec_analyze_options(f, 0, env, r, blocked, sh) {
                Err(e) => Err(e),
                Ok((options, sh1)) => match spec_attr(f, "text"@) {
                    None => Ok((StmtView::Choice { prompt: None, options }, sh1)),
                    Some(p) => match spec_parse_template_pipeline(p, env, r, blocked, sh1) {
                        Err(e) => Err(e),
                        Ok(pt) => Ok((StmtView::Choice { prompt: Some(pt), options }, sh1)),
                    },
                },
            },
        }
    } else if h == "goto"@ {
        match spec_attr(f, "script"@) {
            None => Err(spec_error_at(f, FormIssueView::MissingAttr(h, "script"@))),
            Some(t) => match spec_expr_pipeline(t, env, r, blocked, sh, true) {
                Err(e) => Err(e),
                Ok(x) => Ok((StmtView::Goto { expr: x }, sh)),
            },
        }
    } else if h == "end"@ {
        Ok((StmtView::End, sh))
    } else {
        Err(spec_error_at(f, FormIssueView::UnsupportedStatement(h)))
    }
}

/// The shadowed names after a statement: a temp shadows its name.
pub open spec fn spec_shadow_after(st: StmtView, sh: Set<Seq<char>>) -> Set<Seq<char>> {
    match st {
        StmtView::Temp { name, .. } => sh.insert(name),
        _ => sh,
    }
}

/// The statement forms of `owner` from the `i`-th on, analyzed in order;
/// each temp shadows its name for the statements after it.
pub open spec fn spec_analyze_block(
    owner: Form,
    i: int,
    env: Map<Seq<char>, ConstView>,
    r: ResolverView,
    blocked: Set<Seq<char>>,
    sh: Set<Seq<char>>,
) -> Result<(Seq<StmtView>, Set<Seq<char>>), ErrorView>
    decreases owner, 1nat, spec_child_forms(owner)->Ok_0.len() - i,
{
    let fs = spec_child_forms(owner)->Ok_0;
    if !(spec_child_forms(owner) is Ok) || i < 0 || i >= fs.len() {
        Ok((Seq::empty(), sh))
    } else {
        proof {
            lemma_child_forms_sub(owner);
        }
        match spec_analyze_stmt(fs[i], env, r, blocked, sh) {
            Err(e) => Err(e),
            Ok((st, sh1)) => match spec_analyze_block(owner, i + 1, env, r, blocked, spec_shadow_after(st, sh1)) {
                Err(e) => Err(e),
                Ok((rest, sh2)) => Ok((seq![st] + rest, sh2)),
            },
        }
    }
}

/// An option of a `choice`: it must be an `option` with a `text` template;
/// its body is analyzed as a block.
pub open spec fn spec_analyze_option(
    opt: Form,
    env: Map<Seq<char>, ConstView>,
    r: ResolverView,
    blocked: Set<Seq<char>>,
    sh: Set<Seq<char>>,
) -> Result<((Seq<SegmentView>, Seq<StmtView>), Set<Seq<char>>), ErrorView>
    decreases opt, 2nat, 0int,
{
    if opt.head@ != "option"@ {
        Err(spec_error_at(opt, FormIssueView::ChoiceNonOption(opt.head@)))
    } else {
        match spec_attr(opt, "text"@) {
            None => Err(spec_error_at(opt, FormIssueView::MissingAttr(opt.head@, "text"@))),
            Some(t) => match spec_parse_template_pipeline(t, env, r, blocked, sh) {
                Err(e) => Err(e),
                Ok(tv) => match spec_child_forms(opt) {
                    Err(e) => Err(e),
                    Ok(_) => match spec_analyze_block(opt, 0, env, r, blocked, sh) {
                        Err(e) => Err(e),
                        Ok((body, sh1)) => Ok(((tv, body), sh1)),
                    },
                },
            },
        }
    }
}

/// The options of a `choice` from the `i`-th on, in order.
pub open spec fn spec_analyze_options(
    choice: Form,
    i: int,
    env: Map<Seq<char>, ConstView>,
    r: ResolverView,
    blocked: Set<Seq<char>>,
    sh: Set<Seq<char>>,
) -> Result<(Seq<(Seq<SegmentView>, Seq<StmtView>)>, Set<Seq<char>>), ErrorView>
    decreases choice, 1nat, spec_child_forms(choice)->Ok_0.len() - i,
{
    let os = spec_child_forms(choice)->Ok_0;
    if !(spec_child_forms(choice) is Ok) || i < 0 || i >= os.len() {
        Ok((Seq::empty(), sh))
    } else {
        proof {
            lemma_child_forms_sub(choice);
        }
        match spec_analyze_option(os[i], env, r, blocked, sh) {
            Err(e) => Err(e),
            Ok((ov, sh1)) => match spec_analyze_options(choice, i + 1, env, r, blocked, sh1) {
                Err(e) => Err(e),
                Ok((rest, sh2)) => Ok((seq![ov] + rest, sh2)),
            },
        }
    }
}

/// Whether the forms are the statement forms of `owner`.
pub open spec fn spec_are_children(owner: Form, forms: Seq<&Form>) -> bool {
    spec_child_forms(owner) matches Ok(fs) && fs.len() == forms.len() && forall|j: int| 0 <= j < forms.len() ==> *forms[j] == fs[j]
}

/// Analyzes one statement form; `shadowed_names` gains the temps that
/// nested bodies declare.
pub fn analyze_stmt(
    form: &Form,
    const_env: &NameMap<ConstValue>,
    resolver: &ScopeResolver<'_>,
    remaining_const_names: &NameSet,
    shadowed_names: &mut NameSet,
) -> (r: Result<SemanticStmt, ScriptLangError>)
    requires
        const_env.wf(),
        remaining_const_names.wf(),
        old(shadowed_names).wf(),
    ensures
        final(shadowed_names).wf(),
        match r {
            Ok(st) => spec_analyze_stmt(*form, spec_env_view(*const_env), resolver@, remaining_const_names.view_set(), old(shadowed_names).view_set())
                == Ok::<(StmtView, Set<Seq<char>>), ErrorView>((st@, final(shadowed_names).view_set())),
            Err(e) => spec_analyze_stmt(*form, spec_env_view(*const_env), resolver@, remaining_const_names.view_set(), old(shadowed_names).view_set())
                == Err::<(StmtView, Set<Seq<char>>), ErrorView>(e@)
                && (final(shadowed_names).view_set() == old(shadowed_names).view_set() || form.head@ == "while"@
                || form.head@ == "choice"@),
        },
    decreases form, 2nat, 0int,
{
    let head = form.head.as_str();
    proof {
        reveal_strlit("name");
        reveal_strlit("when");
        reveal_strlit("script");
        reveal_strlit("text");
        reveal_strlit("tag");
    }
    if str_is(head, "const") {
        return Err(error_at(form, FormIssue::ConstNotModuleChild));
    }
    if str_is(head, "import") {
        return Err(error_at(form, FormIssue::ImportNotModuleChild));
    }
    if str_is(head, "temp") {
        let name = match required_attr(form, "name") {
            Ok(n) => n.to_string(),
            Err(e) => {
                return Err(e);
            },
        };
        let declared_type = match parse_declared_type_form(form) {
            Ok(t) => t,
            Err(e) => {
                return Err(e);
            },
        };
        let body = match body_expr(form) {
            Ok(b) => b,
            Err(e) => {
                return Err(e);
            },
        };
        let expr = match rewrite_var_expr(body.as_str(), const_env, resolver, remaining_const_names, shadowed_names) {
            Ok(x) => x,
            Err(e) => {
                return Err(e);
            },
        };
        return Ok(SemanticStmt::Temp { name, declared_type, expr });
    }
    if str_is(head, "code") {
        let body = match body_expr(form) {
            Ok(b) => b,
            Err(e) => {
                return Err(e);
            },
        };
        let code = match rewrite_var_expr(body.as_str(), const_env, resolver, remaining_const_names, shadowed_names) {
            Ok(x) => x,
            Err(e) => {
                return Err(e);
            },
        };
        return Ok(SemanticStmt::Code { code });
    }
    if str_is(head, "text") {
        let body = match body_template(form) {
            Ok(b) => b,
            Err(e) => {
                return Err(e);
            },
        };
        let template = match parse_and_rewrite_template(body.as_str(), const_env, resolver, remaining_const_names, shadowed_names) {
            Ok(t) => t,
            Err(e) => {
                return Err(e);
            },
        };
        let tag = match attr(form, "tag") {
            Some(t) => Some(t.to_string()),
            None => None,
        };
        return Ok(SemanticStmt::Text { template, tag });
    }
    if str_is(head, "while") {
        let when_src = match required_attr(form, "when") {
            Ok(w) => w,
            Err(e) => {
                return Err(e);
            },
        };
        let when = match rewrite_var_expr(when_src, const_env, resolver, remaining_const_names, shadowed_names) {
            Ok(x) => x,
            Err(e) => {
                return Err(e);
            },
        };
        let skip_loop_control_capture = match parse_skip_loop_control_capture_attr(form) {
            Ok(b) => b,
            Err(e) => {
                return Err(e);
            },
        };
        let children = match child_forms(form) {
            Ok(c) => c,
            Err(e) => {
                return Err(e);
            },
        };
        let body = match analyze_block(form, &children, const_env, resolver, remaining_const_names, shadowed_names) {
            Ok(b) => b,
            Err(e) => {
                return Err(e);
            },
        };
        return Ok(SemanticStmt::While { when, skip_loop_control_capture, body });
    }
    if str_is(head, "break") || str_is(head, "continue") {
        let is_break = str_is(head, "break");
        let children = match child_forms(form) {
            Ok(c) => c,
            Err(e) => {
                return Err(e);
            },
        };
        if children.len() > 0 {
            return Err(error_at(form, if is_break { FormIssue::BreakWithChildren } else { FormIssue::ContinueWithChildren }));
        }
        return Ok(if is_break { SemanticStmt::Break } else { SemanticStmt::Continue });
    }
    if str_is(head, "choice") {
        let options_forms = match child_forms(form) {
            Ok(c) => c,
            Err(e) => {
                return Err(e);
            },
        };
        let options = match analyze_options(form, &options_forms, const_env, resolver, remaining_const_names, shadowed_names) {
            Ok(o) => o,
            Err(e) => {
                return Err(e);
            },
        };
        let prompt = match attr(form, "text") {
            None => None,
            Some(p) => match parse_and_rewrite_template(p, const_env, resolver, remaining_const_names, shadowed_names) {
                Ok(t) => Some(t),
                Err(e) => {
                    return Err(e);
                },
            },
        };
        return Ok(SemanticStmt::Choice { prompt, options });
    }
    if str_is(head, "goto") {
        let target = match required_attr(form, "script") {
            Ok(t) => t,
            Err(e) => {
                return Err(e);
            },
        };
        let expr = match rewrite_var_expr(target, const_env, resolver, remaining_const_names, shadowed_names) {
            Ok(x) => x,
            Err(e) => {
                return Err(e);
            },
        };
        return Ok(SemanticStmt::Goto { expr });
    }
    if str_is(head, "end") {
        return Ok(SemanticStmt::End);
    }
    Err(error_at(form, FormIssue::UnsupportedStatement(form.head.clone())))
}

/// Analyzes the statement forms of `owner` in order; after each temp its
/// name is shadowed.
pub fn analyze_block(
    owner: &Form,
    forms: &Vec<&Form>,
    const_env: &NameMap<ConstValue>,
    resolver: &ScopeResolver<'_>,
    remaining_const_names: &NameSet,
    shadowed_names: &mut NameSet,
) -> (r: Result<Vec<SemanticStmt>, ScriptLangError>)
    requires
        const_env.wf(),
        remaining_const_names.wf(),
        old(shadowed_names).wf(),
        spec_are_children(*owner, forms@),
    ensures
        final(shadowed_names).wf(),
        match r {
            Ok(v) => spec_analyze_block(*owner, 0, spec_env_view(*const_env), resolver@, remaining_const_names.view_set(), old(shadowed_names).view_set())
                == Ok::<(Seq<StmtView>, Set<Seq<char>>), ErrorView>((spec_stmt_views(v@), final(shadowed_names).view_set())),
            Err(e) => spec_analyze_block(*owner, 0, spec_env_view(*const_env), resolver@, remaining_const_names.view_set(), old(shadowed_names).view_set())
                == Err::<(Seq<StmtView>, Set<Seq<char>>), ErrorView>(e@),
        },
    decreases owner, 1nat, 0int,
{
    let ghost sh0 = shadowed_names.view_set();
    let ghost fs = spec_child_forms(*owner)->Ok_0;
    let mut body: Vec<SemanticStmt> = Vec::new();
    let mut i: usize = 0;
    proof {
        lemma_child_forms_sub(*owner);
        match spec_analyze_block(*owner, 0, spec_env_view(*const_env), resolver@, remaining_const_names.view_set(), sh0) {
            Ok((rest, shf)) => {
                assert(spec_stmt_views(body@) + rest =~= rest);
            },
            Err(e) => {},
        }
    }
    while i < forms.len()
        invariant
            const_env.wf(),
            remaining_const_names.wf(),
            shadowed_names.wf(),
            spec_are_children(*owner, forms@),
            fs == spec_child_forms(*owner)->Ok_0,
            sh0 == old(shadowed_names).view_set(),
            forall|j: int| 0 <= j < fs.len() ==> decreases_to!(*owner => fs[j]),
            i <= forms@.len(),
            match spec_analyze_block(*owner, i as int, spec_env_view(*const_env), resolver@, remaining_const_names.view_set(), shadowed_names.view_set()) {
                Ok((rest, shf)) => spec_analyze_block(*owner, 0, spec_env_view(*const_env), resolver@, remaining_const_names.view_set(), sh0)
                    == Ok::<(Seq<StmtView>, Set<Seq<char>>), ErrorView>((spec_stmt_views(body@) + rest, shf)),
                Err(e) => spec_analyze_block(*owner, 0, spec_env_view(*const_env), resolver@, remaining_const_names.view_set(), sh0)
                    == Err::<(Seq<StmtView>, Set<Seq<char>>), ErrorView>(e),
            },
        decreases forms@.len() - i,
    {
        let ghost sh_before = shadowed_names.view_set();
        let ghost old_body = body@;
        let child = forms[i];
        assert(*child == fs[i as int]);
        let stmt = match analyze_stmt(child, const_env, resolver, remaining_const_names, shadowed_names) {
            Ok(s) => s,
            Err(e) => {
                assert(spec_analyze_block(*owner, i as int, spec_env_view(*const_env), resolver@, remaining_const_names.view_set(), sh_before)
                    == Err::<(Seq<StmtView>, Set<Seq<char>>), ErrorView>(e@));
                return Err(e);
            },
        };
        let ghost sh1 = shadowed_names.view_set();
        let ghost st = stmt@;
        match &stmt {
            SemanticStmt::Temp { name, .. } => {
                shadowed_names.insert(name.clone());
                assert(shadowed_names.view_set() =~= sh1.insert(name@));
            },
            _ => {},
        }
        assert(shadowed_names.view_set() == spec_shadow_after(st, sh1));
        body.push(stmt);
        proof {
            lemma_stmt_views_push(old_body, stmt);
            match spec_analyze_block(*owner, i + 1, spec_env_view(*const_env), resolver@, remaining_const_names.view_set(), shadowed_names.view_set()) {
                Ok((rest, shf)) => {
                    assert(spec_stmt_views(body@) + rest =~= spec_stmt_views(old_body) + (seq![st] + rest));
                },
                Err(e) => {},
            }
        }
        i = i + 1;
    }
    proof {
        assert(spec_stmt_views(body@) + Seq::<StmtView>::empty() =~= spec_stmt_views(body@));
    }
    Ok(body)
}

/// Analyzes one option of a `choice`.
pub fn analyze_option(
    option: &Form,
    const_env: &NameMap<ConstValue>,
    resolver: &ScopeResolver<'_>,
    remaining_const_names: &NameSet,
    shadowed_names: &mut NameSet,
) -> (r: Result<SemanticChoiceOption, ScriptLangError>)
    requires
        const_env.wf(),
        remaining_const_names.wf(),
        old(shadowed_names).wf(),
    ensures
        final(shadowed_names).wf(),
        match r {
            Ok(o) => spec_analyze_option(*option, spec_env_view(*const_env), resolver@, remaining_const_names.view_set(), old(shadowed_names).view_set())
                == Ok::<((Seq<SegmentView>, Seq<StmtView>), Set<Seq<char>>), ErrorView>(((o.text@, spec_stmt_views(o.body@)), final(shadowed_names).view_set())),
            Err(e) => spec_analyze_option(*option, spec_env_view(*const_env), resolver@, remaining_const_names.view_set(), old(shadowed_names).view_set())
                == Err::<((Seq<SegmentView>, Seq<StmtView>), Set<Seq<char>>), ErrorView>(e@),
        },
    decreases option, 2nat, 0int,
{
    proof {
        reveal_strlit("text");
    }
    if !str_is(option.head.as_str(), "option") {
        return Err(error_at(option, FormIssue::ChoiceNonOption(option.head.clone())));
    }
    let text_src = match required_attr(option, "text") {
        Ok(t) => t,
        Err(e) => {
            return Err(e);
        },
    };
    let text = match parse_and_rewrite_template(text_src, const_env, resolver, remaining_const_names, shadowed_names) {
        Ok(t) => t,
        Err(e) => {
            return Err(e);
        },
    };
    let children = match child_forms(option) {
        Ok(c) => c,
        Err(e) => {
            return Err(e);
        },
    };
    let body = match analyze_block(option, &children, const_env, resolver, remaining_const_names, shadowed_names) {
        Ok(b) => b,
        Err(e) => {
            return Err(e);
        },
    };
    Ok(SemanticChoiceOption { text, body })
}

/// Analyzes the options of a `choice`.
pub fn analyze_options(
    choice: &Form,
    forms: &Vec<&Form>,
    const_env: &NameMap<ConstValue>,
    resolver: &ScopeResolver<'_>,
    remaining_const_names: &NameSet,
    shadowed_names: &mut NameSet,
) -> (r: Result<Vec<SemanticChoiceOption>, ScriptLangError>)
    requires
        const_env.wf(),
        remaining_const_names.wf(),
        old(shadowed_names).wf(),
        spec_are_children(*choice, forms@),
    ensures
        final(shadowed_names).wf(),
        match r {
            Ok(v) => spec_analyze_options(*choice, 0, spec_env_view(*const_env), resolver@, remaining_const_names.view_set(), old(shadowed_names).view_set())
                == Ok::<(Seq<(Seq<SegmentView>, Seq<StmtView>)>, Set<Seq<char>>), ErrorView>((spec_option_views(v@), final(shadowed_names).view_set())),
            Err(e) => spec_analyze_options(*choice, 0, spec_env_view(*const_env), resolver@, remaining_const_names.view_set(), old(shadowed_names).view_set())
                == Err::<(Seq<(Seq<SegmentView>, Seq<StmtView>)>, Set<Seq<char>>), ErrorView>(e@),
        },
    decreases choice, 1nat, 0int,
{
    let ghost sh0 = shadowed_names.view_set();
    let ghost os = spec_child_forms(*choice)->Ok_0;
    let mut options: Vec<SemanticChoiceOption> = Vec::new();
    let mut i: usize = 0;
    proof {
        lemma_child_forms_sub(*choice);
        match spec_analyze_options(*choice, 0, spec_env_view(*const_env), resolver@, remaining_const_names.view_set(), sh0) {
            Ok((rest, shf)) => {
                assert(spec_option_views(options@) + rest =~= rest);
            },
            Err(e) => {},
        }
    }
    while i < forms.len()
        invariant
            const_env.wf(),
            remaining_const_names.wf(),
            shadowed_names.wf(),
            spec_are_children(*choice, forms@),
            os == spec_child_forms(*choice)->Ok_0,
            sh0 == old(shadowed_names).view_set(),
            forall|j: int| 0 <= j < os.len() ==> decreases_to!(*choice => os[j]),
            i <= forms@.len(),
            match spec_analyze_options(*choice, i as int, spec_env_view(*const_env), resolver@, remaining_const_names.view_set(), shadowed_names.view_set()) {
                Ok((rest, shf)) => spec_analyze_options(*choice, 0, spec_env_view(*const_env), resolver@, remaining_const_names.view_set(), sh0)
                    == Ok::<(Seq<(Seq<SegmentView>, Seq<StmtView>)>, Set<Seq<char>>), ErrorView>((spec_option_views(options@) + rest, shf)),
                Err(e) => spec_analyze_options(*choice, 0, spec_env_view(*const_env), resolver@, remaining_const_names.view_set(), sh0)
                    == Err::<(Seq<(Seq<SegmentView>, Seq<StmtView>)>, Set<Seq<char>>), ErrorView>(e),
            },
        decreases forms@.len() - i,
    {
        let ghost sh_before = shadowed_names.view_set();
        let ghost old_options = options@;
        let option = forms[i];
        assert(*option == os[i as int]);
        let opt = match analyze_option(option, const_env, resolver, remaining_const_names, shadowed_names) {
            Ok(o) => o,
            Err(e) => {
                assert(spec_analyze_options(*choice, i as int, spec_env_view(*const_env), resolver@, remaining_const_names.view_set(), sh_before)
                    == Err::<(Seq<(Seq<SegmentView>, Seq<StmtView>)>, Set<Seq<char>>), ErrorView>(e@));
                return Err(e);
            },
        };
        let ghost ov = (opt.text@, spec_stmt_views(opt.body@));
        options.push(opt);
        proof {
            lemma_option_views_push(old_options, opt);
            match spec_analyze_options(*choice, i + 1, spec_env_view(*const_env), resolver@, remaining_const_names.view_set(), shadowed_names.view_set()) {
                Ok((rest, shf)) => {
                    assert(spec_option_views(options@) + rest =~= spec_option_views(old_options) + (seq![ov] + rest));
                },
                Err(e) => {},
            }
        }
        i = i + 1;
    }
    proof {
        assert(spec_option_views(options@) + Seq::<(Seq<SegmentView>, Seq<StmtView>)>::empty() =~= spec_option_views(options@));
    }
    Ok(options)
}

/// A `script` form analyzed: its name, and its body as a block in which
/// nothing is shadowed at the start.
pub open spec fn spec_analyze_script(
    f: Form,
    env: Map<Seq<char>, ConstView>,
    r: ResolverView,
    blocked: Set<Seq<char>>,
) -> Result<(Seq<char>, Seq<StmtView>), ErrorView> {
    match spec_attr(f, "name"@) {
        None => Err(spec_error_at(f, FormIssueView::MissingAttr(f.head@, "name"@))),
        Some(n) => match spec_child_forms(f) {
            Err(e) => Err(e),
            Ok(_) => match spec_analyze_block(f, 0, env, r, blocked, Set::empty()) {
                Err(e) => Err(e),
                Ok((body, _)) => Ok((n, body)),
            },
        },
    }
}

/// Analyzes a `script` form.
pub fn analyze_script(
    form: &Form,
    resolver: &ScopeResolver<'_>,
    const_env: &NameMap<ConstValue>,
    remaining_const_names: &NameSet,
) -> (r: Result<SemanticScript, ScriptLangError>)
    requires
        const_env.wf(),
        remaining_const_names.wf(),
    ensures
        match r {
            Ok(s) => spec_analyze_script(*form, spec_env_view(*const_env), resolver@, remaining_const_names.view_set())
                == Ok::<(Seq<char>, Seq<StmtView>), ErrorView>((s.name@, spec_stmt_views(s.body@))),
            Err(e) => spec_analyze_script(*form, spec_env_view(*const_env), resolver@, remaining_const_names.view_set())
                == Err::<(Seq<char>, Seq<StmtView>), ErrorView>(e@),
        },
{
    proof {
        reveal_strlit("name");
    }
    let mut shadowed_names = NameSet::new();
    let name = match required_attr(form, "name") {
        Ok(n) => n.to_string(),
        Err(e) => {
            return Err(e);
        },
    };
    let children = match child_forms(form) {
        Ok(c) => c,
        Err(e) => {
            return Err(e);
        },
    };
    let body = match analyze_block(form, &children, const_env, resolver, remaining_const_names, &mut shadowed_names) {
        Ok(b) => b,
        Err(e) => {
            return Err(e);
        },
    };
    Ok(SemanticScript { name, body })
}

} // verus!
