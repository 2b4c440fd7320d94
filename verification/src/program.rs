//! Analysis of a whole program: each module's children in order. Imports,
//! requires and aliases shape what the module sees; consts are evaluated in
//! order, and functions, vars and scripts are analyzed against what is
//! visible where they stand.
use vstd::prelude::*;
use crate::collections::{NameMap, NameSet};
use crate::env::{ModuleState, ProgramState};
use crate::const_eval::{parse_const_value, spec_env_view, spec_parse_const_value};
use crate::const_value::{ConstValue, ConstView};
use crate::errors::{DeclaredType, ErrorView, FormIssue, FormIssueView, ScriptLangError};
use crate::form::{
    Form, attr, body_expr, error_at, required_attr, spec_attr, spec_body_expr, spec_error_at, spec_trimmed_text_items, trimmed_text_items,
};
use crate::classify::str_is;
use crate::resolve::{
    ConstCatalog, ModuleCatalog, ResolverView, ScopeResolver, alias_name, spec_alias_name, spec_initial_scope,
    spec_validate_import, validate_import_target,
};
use crate::scope::{ModuleScope, ScopeView};
use crate::semantic::{
    SemanticFunction, SemanticModule, SemanticProgram, SemanticScript, SemanticVar, StmtView, analyze_script,
    parse_declared_type_form, parse_declared_type_name, rewrite_function_body, rewrite_var_expr, spec_analyze_script,
    spec_declared_type_form, spec_expr_pipeline, spec_parse_declared_type, spec_stmt_views,
};
use crate::text::{
    chars_of, find_char, lemma_find_char_bounds, spec_find_char, spec_trim, string_from_chars, trim_range,
};

verus! {

/// The name a `type:name` function argument declares, its type checked.
pub open spec fn spec_function_arg(form: Form, seg: Seq<char>) -> Result<Seq<char>, ErrorView> {
    match spec_find_char(seg, 0, ':') {
        None => Err(spec_error_at(form, FormIssueView::InvalidFunctionArg(seg))),
        Some(k) => match spec_parse_declared_type(Some(spec_trim(seg.take(k))), "function"@) {
            Err(i) => Err(spec_error_at(form, i)),
            Ok(_) => {
                let name = spec_trim(seg.skip(k + 1));
                if name.len() == 0 {
                    Err(spec_error_at(form, FormIssueView::InvalidFunctionArg(seg)))
                } else {
                    Ok(name)
                }
            },
        },
    }
}

/// The argument names of the comma-separated declarations of `t` from
/// `start` on; a name given twice is an error.
pub open spec fn spec_function_args_from(form: Form, t: Seq<char>, start: int, seen: Set<Seq<char>>) -> Result<Seq<Seq<char>>, ErrorView>
    decreases t.len() - start,
{
    if start < 0 || start > t.len() {
        Ok(Seq::empty())
    } else {
        let end = match spec_find_char(t, start, ',') {
            Some(k) => k,
            None => t.len() as int,
        };
        proof {
            lemma_find_char_bounds(t, start, ',');
        }
        match spec_function_arg(form, spec_trim(t.subrange(start, end))) {
            Err(e) => Err(e),
            Ok(name) => if seen.contains(name) {
                Err(spec_error_at(form, FormIssueView::DuplicateFunctionArg(name)))
            } else if end >= t.len() {
                Ok(seq![name])
            } else {
                match spec_function_args_from(form, t, end + 1, seen.insert(name)) {
                    Ok(rest) => Ok(seq![name] + rest),
                    Err(e) => Err(e),
                }
            },
        }
    }
}

/// The argument names a `<function>` declares in its `args` attribute.
pub open spec fn spec_function_args(form: Form) -> Result<Seq<Seq<char>>, ErrorView> {
    match spec_attr(form, "args"@) {
        None => Ok(Seq::empty()),
        Some(raw) => {
            let t = spec_trim(raw);
            if t.len() == 0 {
                Ok(Seq::empty())
            } else {
                spec_function_args_from(form, t, 0, Set::empty())
            }
        },
    }
}

pub open spec fn spec_names(v: Seq<String>) -> Seq<Seq<char>> {
    v.map_values(|s: String| s@)
}

/// Checks one `type:name` argument declaration and gives its name.
pub fn parse_function_type_from_segment(raw: &Vec<char>, form: &Form) -> (r: Result<(DeclaredType, String), ScriptLangError>)
    ensures
        match r {
            Ok((_, name)) => spec_function_arg(*form, raw@) == Ok::<Seq<char>, ErrorView>(name@),
            Err(e) => spec_function_arg(*form, raw@) == Err::<Seq<char>, ErrorView>(e@),
        },
{
    proof {
        reveal_strlit("function");
        lemma_find_char_bounds(raw@, 0, ':');
    }
    let colon = match find_char(raw, 0, ':') {
        Some(k) => k,
        None => {
            return Err(error_at(form, FormIssue::InvalidFunctionArg(string_from_chars(raw))));
        },
    };
    let type_part = trim_range(raw, 0, colon);
    assert(raw@.subrange(0, colon as int) =~= raw@.take(colon as int));
    let type_text = string_from_chars(&type_part);
    let declared_type = match parse_declared_type_name(Some(type_text.as_str()), "function") {
        Ok(d) => d,
        Err(issue) => {
            return Err(error_at(form, issue));
        },
    };
    assert(colon < raw@.len());
    assert(colon < raw.len());
    let name_part = trim_range(raw, colon + 1, raw.len());
    assert(raw@.subrange(colon + 1, raw@.len() as int) =~= raw@.skip(colon + 1));
    if name_part.len() == 0 {
        return Err(error_at(form, FormIssue::InvalidFunctionArg(string_from_chars(raw))));
    }
    Ok((declared_type, string_from_chars(&name_part)))
}

/// The argument names a `<function>` declares: `args` holds
/// comma-separated `type:name` declarations; no name may repeat.
pub fn parse_function_args(form: &Form) -> (r: Result<Vec<String>, ScriptLangError>)
    ensures
        match r {
            Ok(v) => spec_function_args(*form) == Ok::<Seq<Seq<char>>, ErrorView>(spec_names(v@)),
            Err(e) => spec_function_args(*form) == Err::<Seq<Seq<char>>, ErrorView>(e@),
        },
{
    proof {
        reveal_strlit("args");
    }
    let raw = match attr(form, "args") {
        None => {
            let v: Vec<String> = Vec::new();
            assert(spec_names(v@) =~= Seq::<Seq<char>>::empty());
            return Ok(v);
        },
        Some(r) => r,
    };
    let chars = chars_of(raw);
    let t = trim_range(&chars, 0, chars.len());
    assert(chars@.subrange(0, chars@.len() as int) =~= raw@);
    if t.len() == 0 {
        let v: Vec<String> = Vec::new();
        assert(spec_names(v@) =~= Seq::<Seq<char>>::empty());
        return Ok(v);
    }
    let ghost target = spec_function_args_from(*form, t@, 0, Set::empty());
    assert(spec_function_args(*form) == target);
    let mut names = NameSet::new();
    let mut params: Vec<String> = Vec::new();
    let mut start: usize = 0;
    loop
        invariant
            names.wf(),
            start <= t@.len(),
            target == spec_function_args_from(*form, t@, 0, Set::empty()),
            spec_function_args(*form) == target,
            names.view_set() == spec_names(params@).to_set(),
            match spec_function_args_from(*form, t@, start as int, names.view_set()) {
                Ok(rest) => target == Ok::<Seq<Seq<char>>, ErrorView>(spec_names(params@) + rest),
                Err(e) => target == Err::<Seq<Seq<char>>, ErrorView>(e),
            },
        decreases t@.len() - start,
    {
        proof {
            lemma_find_char_bounds(t@, start as int, ',');
        }
        let end = match find_char(&t, start, ',') {
            Some(k) => k,
            None => t.len(),
        };
        let seg = trim_range(&t, start, end);
        let name = match parse_function_type_from_segment(&seg, form) {
            Ok((_, n)) => n,
            Err(e) => {
                return Err(e);
            },
        };
        if names.contains(name.as_str()) {
            return Err(error_at(form, FormIssue::DuplicateFunctionArg(name)));
        }
        let ghost before = params@;
        let ghost seen = names.view_set();
        names.insert(string_from_chars(&chars_of(name.as_str())));
        proof {
            assert(names.view_set() =~= seen.insert(name@));
        }
        params.push(name);
        proof {
            assert(spec_names(params@) =~= spec_names(before).push(name@));
            assert(spec_names(params@).to_set() =~= spec_names(before).to_set().insert(name@)) by {
                assert forall|x: Seq<char>| spec_names(params@).to_set().contains(x) == spec_names(before).to_set().insert(name@).contains(x) by {
                    if spec_names(params@).contains(x) && x != name@ {
                        let i = choose|i: int| 0 <= i < spec_names(params@).len() && #[trigger] spec_names(params@)[i] == x;
                        assert(spec_names(before)[i] == x);
                    }
                    if spec_names(before).contains(x) {
                        let i = choose|i: int| 0 <= i < spec_names(before).len() && #[trigger] spec_names(before)[i] == x;
                        assert(spec_names(params@)[i] == x);
                    }
                    if x == name@ {
                        assert(spec_names(params@)[before.len() as int] == x);
                    }
                }
            }
        }
        if end >= t.len() {
            proof {
                assert(spec_names(before) + seq![name@] =~= spec_names(params@));
            }
            return Ok(params);
        }
        proof {
            let rest_result = spec_function_args_from(*form, t@, end + 1, names.view_set());
            match rest_result {
                Ok(rest) => {
                    assert(spec_names(before) + (seq![name@] + rest) =~= spec_names(params@) + rest);
                },
                Err(_) => {},
            }
        }
        start = end + 1;
    }
}

/// A `<function>`: its arguments, its name, its return type and its body
/// with the arguments shadowing everything else.
pub open spec fn spec_analyze_function(
    form: Form,
    env: Map<Seq<char>, ConstView>,
    r: ResolverView,
    remaining: Set<Seq<char>>,
) -> Result<(Seq<char>, Seq<Seq<char>>, DeclaredType, Seq<char>), ErrorView> {
    match spec_function_args(form) {
        Err(e) => Err(e),
        Ok(params) => match spec_trimmed_text_items(form) {
            Err(e) => Err(e),
            Ok(body) => match spec_attr(form, "name"@) {
                None => Err(spec_error_at(form, FormIssueView::MissingAttr(form.head@, "name"@))),
                Some(name) => match spec_parse_declared_type(spec_attr(form, "return_type"@), "function"@) {
                    Err(i) => Err(spec_error_at(form, i)),
                    Ok(t) => match spec_expr_pipeline(body, env, r, remaining, params.to_set(), false) {
                        Ok(b) => Ok((name, params, t, b)),
                        Err(e) => Err(e),
                    },
                },
            },
        },
    }
}

/// What an analyzed function is, as values.
pub open spec fn spec_function_view(f: SemanticFunction) -> (Seq<char>, Seq<Seq<char>>, DeclaredType, Seq<char>) {
    (f.name@, spec_names(f.param_names@), f.return_type, f.body@)
}

/// Analyzes a `<function>`.
pub fn analyze_function(
    form: &Form,
    const_env: &NameMap<ConstValue>,
    resolver: &ScopeResolver<'_>,
    remaining_const_names: &NameSet,
) -> (r: Result<SemanticFunction, ScriptLangError>)
    requires
        const_env.wf(),
        remaining_const_names.wf(),
    ensures
        match r {
            Ok(f) => spec_analyze_function(*form, spec_env_view(*const_env), resolver@, remaining_const_names.view_set())
                == Ok::<(Seq<char>, Seq<Seq<char>>, DeclaredType, Seq<char>), ErrorView>(spec_function_view(f)),
            Err(e) => spec_analyze_function(*form, spec_env_view(*const_env), resolver@, remaining_const_names.view_set())
                == Err::<(Seq<char>, Seq<Seq<char>>, DeclaredType, Seq<char>), ErrorView>(e@),
        },
{
    proof {
        reveal_strlit("name");
        reveal_strlit("return_type");
        reveal_strlit("function");
    }
    let param_names = match parse_function_args(form) {
        Ok(p) => p,
        Err(e) => {
            return Err(e);
        },
    };
    let mut shadowed_names = NameSet::new();
    let mut i: usize = 0;
    while i < param_names.len()
        invariant
            shadowed_names.wf(),
            i <= param_names@.len(),
            shadowed_names.view_set() == spec_names(param_names@).take(i as int).to_set(),
        decreases param_names@.len() - i,
    {
        let ghost seen = shadowed_names.view_set();
        shadowed_names.insert(string_from_chars(&chars_of(param_names[i].as_str())));
        proof {
            let ns = spec_names(param_names@);
            assert(ns.take(i + 1) =~= ns.take(i as int).push(ns[i as int]));
            assert forall|x: Seq<char>| shadowed_names.view_set().contains(x) == ns.take(i + 1).to_set().contains(x) by {
                assert(ns.take(i + 1)[i as int] == ns[i as int]);
                if ns.take(i as int).contains(x) {
                    let j = choose|j: int| 0 <= j < i && #[trigger] ns.take(i as int)[j] == x;
                    assert(ns.take(i + 1)[j] == x);
                }
                if ns.take(i + 1).contains(x) {
                    let j = choose|j: int| 0 <= j < i + 1 && #[trigger] ns.take(i + 1)[j] == x;
                    if j < i {
                        assert(ns.take(i as int)[j] == x);
                    }
                }
            }
            assert(shadowed_names.view_set() =~= ns.take(i + 1).to_set());
        }
        i = i + 1;
    }
    proof {
        assert(spec_names(param_names@).take(param_names@.len() as int) =~= spec_names(param_names@));
    }
    let body = match trimmed_text_items(form) {
        Ok(b) => b,
        Err(e) => {
            return Err(e);
        },
    };
    let name = match required_attr(form, "name") {
        Ok(n) => n.to_string(),
        Err(e) => {
            return Err(e);
        },
    };
    let return_type = match parse_declared_type_name(attr(form, "return_type"), "function") {
        Ok(t) => t,
        Err(issue) => {
            return Err(error_at(form, issue));
        },
    };
    let body = match rewrite_function_body(body.as_str(), const_env, resolver, remaining_const_names, &shadowed_names) {
        Ok(b) => b,
        Err(e) => {
            return Err(e);
        },
    };
    Ok(SemanticFunction { name, param_names, return_type, body })
}

/// A `<const>`: its name and its value, evaluated with the consts declared
/// after it (other than itself) not yet visible.
pub open spec fn spec_analyze_const(
    form: Form,
    env: Map<Seq<char>, ConstView>,
    r: ResolverView,
    remaining: Set<Seq<char>>,
) -> Result<(Seq<char>, ConstView), ErrorView> {
    match spec_attr(form, "name"@) {
        None => Err(spec_error_at(form, FormIssueView::MissingAttr(form.head@, "name"@))),
        Some(name) => match spec_body_expr(form) {
            Err(e) => Err(e),
            Ok(raw) => match spec_declared_type_form(form) {
                Err(e) => Err(e),
                Ok(t) => match spec_parse_const_value(raw, env, r, remaining.remove(name), Some(t)) {
                    Ok(v) => Ok((name, v)),
                    Err(e) => Err(e),
                },
            },
        },
    }
}

/// Evaluates a `<const>`.
pub fn analyze_const(
    form: &Form,
    const_env: &NameMap<ConstValue>,
    resolver: &ScopeResolver<'_>,
    remaining_const_names: &NameSet,
) -> (r: Result<(String, ConstValue), ScriptLangError>)
    requires
        const_env.wf(),
        remaining_const_names.wf(),
    ensures
        match r {
            Ok((n, v)) => spec_analyze_const(*form, spec_env_view(*const_env), resolver@, remaining_const_names.view_set())
                == Ok::<(Seq<char>, ConstView), ErrorView>((n@, v@)),
            Err(e) => spec_analyze_const(*form, spec_env_view(*const_env), resolver@, remaining_const_names.view_set())
                == Err::<(Seq<char>, ConstView), ErrorView>(e@),
        },
{
    proof {
        reveal_strlit("name");
    }
    let name = match required_attr(form, "name") {
        Ok(n) => n.to_string(),
        Err(e) => {
            return Err(e);
        },
    };
    let raw = match body_expr(form) {
        Ok(b) => b,
        Err(e) => {
            return Err(e);
        },
    };
    let mut blocked = remaining_const_names.copy();
    proof {
        assert(blocked.view_set() =~= remaining_const_names.view_set());
    }
    blocked.remove(name.as_str());
    let declared_type = match parse_declared_type_form(form) {
        Ok(t) => t,
        Err(e) => {
            return Err(e);
        },
    };
    match parse_const_value(raw.as_str(), const_env, resolver, &blocked, Some(declared_type)) {
        Ok(v) => Ok((name, v)),
        Err(e) => Err(e),
    }
}

/// How far the analysis of a module's children has come, as values: the
/// scope, the consts evaluated, the consts not yet defined, and the
/// functions, vars and scripts analyzed.
pub struct ModuleProgress {
    pub scope: ScopeView,
    pub env: Map<Seq<char>, ConstView>,
    pub remaining: Set<Seq<char>>,
    pub functions: Seq<(Seq<char>, Seq<Seq<char>>, DeclaredType, Seq<char>)>,
    pub vars: Seq<(Seq<char>, DeclaredType, Seq<char>)>,
    pub scripts: Seq<(Seq<char>, Seq<StmtView>)>,
}

/// What an analyzed var is, as values.
pub open spec fn spec_var_view(v: SemanticVar) -> (Seq<char>, DeclaredType, Seq<char>) {
    (v.name@, v.declared_type, v.expr@)
}

/// What an analyzed script is, as values.
pub open spec fn spec_script_view(s: SemanticScript) -> (Seq<char>, Seq<StmtView>) {
    (s.name@, spec_stmt_views(s.body@))
}

/// A `<var>`: its name, its declared type and its initializer with consts,
/// literals, calls and var references resolved.
pub open spec fn spec_analyze_var(
    form: Form,
    env: Map<Seq<char>, ConstView>,
    r: ResolverView,
    remaining: Set<Seq<char>>,
) -> Result<(Seq<char>, DeclaredType, Seq<char>), ErrorView> {
    match spec_attr(form, "name"@) {
        None => Err(spec_error_at(form, FormIssueView::MissingAttr(form.head@, "name"@))),
        Some(name) => match spec_declared_type_form(form) {
            Err(e) => Err(e),
            Ok(t) => match spec_body_expr(form) {
                Err(e) => Err(e),
                Ok(body) => match spec_expr_pipeline(body, env, r, remaining, Set::empty(), true) {
                    Ok(x) => Ok((name, t, x)),
                    Err(e) => Err(e),
                },
            },
        },
    }
}

/// The module a `require`, `import` or `alias` names must be another module
/// of the program.
pub open spec fn spec_linked_module(form: Form, catalog: ModuleCatalog, current: Seq<char>, target: Option<Seq<char>>) -> Result<Seq<char>, ErrorView> {
    match target {
        None => Err(spec_error_at(form, FormIssueView::MissingAttr(form.head@, "name"@))),
        Some(t) => match spec_validate_import(catalog, form, current, t) {
            Ok(_) => Ok(t),
            Err(e) => Err(e),
        },
    }
}

/// What one child of a module does to the analysis.
#[verifier::opaque]
pub open spec fn spec_module_step(st: ModuleProgress, c: Form, catalog: ModuleCatalog, consts: ConstCatalog) -> Result<ModuleProgress, ErrorView> {
    let r = ResolverView { modules: catalog, consts: consts.table(), scope: st.scope };
    let head = c.head@;
    if head == "import"@ {
        match spec_linked_module(c, catalog, st.scope.current, spec_attr(c, "name"@)) {
            Err(e) => Err(e),
            Ok(m) => Ok(ModuleProgress { scope: st.scope.add_import(m), ..st }),
        }
    } else if head == "require"@ {
        match spec_linked_module(c, catalog, st.scope.current, spec_attr(c, "name"@)) {
            Err(e) => Err(e),
            Ok(_) => Ok(st),
        }
    } else if head == "alias"@ {
        let target = match spec_attr(c, "target"@) {
            Some(t) => Some(t),
            None => spec_attr(c, "name"@),
        };
        match spec_linked_module(c, catalog, st.scope.current, target) {
            Err(e) => Err(e),
            Ok(m) => match spec_alias_name(c) {
                Err(e) => Err(e),
                Ok(a) => Ok(ModuleProgress { scope: st.scope.add_alias(a, m), ..st }),
            },
        }
    } else if head == "const"@ {
        match spec_analyze_const(c, st.env, r, st.remaining) {
            Err(e) => Err(e),
            Ok((n, v)) => Ok(ModuleProgress { env: st.env.insert(n, v), remaining: st.remaining.remove(n), ..st }),
        }
    } else if head == "function"@ {
        match spec_analyze_function(c, st.env, r, st.remaining) {
            Err(e) => Err(e),
            Ok(f) => Ok(ModuleProgress { functions: st.functions.push(f), ..st }),
        }
    } else if head == "var"@ {
        match spec_analyze_var(c, st.env, r, st.remaining) {
            Err(e) => Err(e),
            Ok(v) => Ok(ModuleProgress { vars: st.vars.push(v), ..st }),
        }
    } else if head == "script"@ {
        match spec_analyze_script(c, st.env, r, st.remaining) {
            Err(e) => Err(e),
            Ok(s) => Ok(ModuleProgress { scripts: st.scripts.push(s), ..st }),
        }
    } else {
        Err(spec_error_at(c, FormIssueView::UnsupportedModuleChild(head)))
    }
}

/// The children of a module analyzed in order.
pub open spec fn spec_module_children(st: ModuleProgress, cs: Seq<Form>, catalog: ModuleCatalog, consts: ConstCatalog) -> Result<ModuleProgress, ErrorView>
    decreases cs.len(),
{
    if cs.len() == 0 {
        Ok(st)
    } else {
        match spec_module_step(st, cs[0], catalog, consts) {
            Ok(s) => spec_module_children(s, cs.drop_first(), catalog, consts),
            Err(e) => Err(e),
        }
    }
}

/// The names of the `<const>` children, added to `acc`; a `<const>` without
/// a name is an error.
pub open spec fn spec_future_consts(cs: Seq<Form>, acc: Set<Seq<char>>) -> Result<Set<Seq<char>>, ErrorView>
    decreases cs.len(),
{
    if cs.len() == 0 {
        Ok(acc)
    } else if cs[0].head@ == "const"@ {
        match spec_attr(cs[0], "name"@) {
            None => Err(spec_error_at(cs[0], FormIssueView::MissingAttr(cs[0].head@, "name"@))),
            Some(n) => spec_future_consts(cs.drop_first(), acc.insert(n)),
        }
    } else {
        spec_future_consts(cs.drop_first(), acc)
    }
}

/// A module analyzed: its name, functions, vars and scripts.
pub open spec fn spec_analyze_module(m: ModuleState, catalog: ModuleCatalog, consts: ConstCatalog) -> Result<
    (Seq<char>, Seq<(Seq<char>, Seq<Seq<char>>, DeclaredType, Seq<char>)>, Seq<(Seq<char>, DeclaredType, Seq<char>)>, Seq<(Seq<char>, Seq<StmtView>)>),
    ErrorView,
> {
    match m.module_name {
        None => Err(ErrorView::MissingModuleName),
        Some(name) => match spec_future_consts(m.children@, Set::empty()) {
            Err(e) => Err(e),
            Ok(future) => {
                let start = ModuleProgress {
                    scope: spec_initial_scope(catalog, name@),
                    env: Map::empty(),
                    remaining: future,
                    functions: Seq::empty(),
                    vars: Seq::empty(),
                    scripts: Seq::empty(),
                };
                match spec_module_children(start, m.children@, catalog, consts) {
                    Ok(st) => Ok((name@, st.functions, st.vars, st.scripts)),
                    Err(e) => Err(e),
                }
            },
        },
    }
}

/// What an analyzed module is, as values.
pub open spec fn spec_module_view(m: SemanticModule) -> (
    Seq<char>,
    Seq<(Seq<char>, Seq<Seq<char>>, DeclaredType, Seq<char>)>,
    Seq<(Seq<char>, DeclaredType, Seq<char>)>,
    Seq<(Seq<char>, Seq<StmtView>)>,
) {
    (
        m.name@,
        m.functions@.map_values(|f: SemanticFunction| spec_function_view(f)),
        m.vars@.map_values(|v: SemanticVar| spec_var_view(v)),
        m.scripts@.map_values(|s: SemanticScript| spec_script_view(s)),
    )
}

/// The state of a module's analysis.
pub struct ModuleAnalyzer {
    pub scope: ModuleScope,
    pub const_env: NameMap<ConstValue>,
    pub remaining: NameSet,
    pub functions: Vec<SemanticFunction>,
    pub vars: Vec<SemanticVar>,
    pub scripts: Vec<SemanticScript>,
}

impl ModuleAnalyzer {
    pub open spec fn wf(&self) -> bool {
        self.scope.wf() && self.const_env.wf() && self.remaining.wf()
    }

    pub open spec fn progress(&self) -> ModuleProgress {
        ModuleProgress {
            scope: self.scope@,
            env: spec_env_view(self.const_env),
            remaining: self.remaining.view_set(),
            functions: self.functions@.map_values(|f: SemanticFunction| spec_function_view(f)),
            vars: self.vars@.map_values(|v: SemanticVar| spec_var_view(v)),
            scripts: self.scripts@.map_values(|s: SemanticScript| spec_script_view(s)),
        }
    }

    /// Analyzes one child of the module.
    pub fn step(&mut self, child: &Form, catalog: &ModuleCatalog, consts: &ConstCatalog) -> (r: Result<(), ScriptLangError>)
        requires
            old(self).wf(),
            catalog.wf(),
            consts.wf(),
        ensures
            final(self).wf(),
            match r {
                Ok(()) => spec_module_step(old(self).progress(), *child, *catalog, *consts) == Ok::<ModuleProgress, ErrorView>(final(self).progress()),
                Err(e) => spec_module_step(old(self).progress(), *child, *catalog, *consts) == Err::<ModuleProgress, ErrorView>(e@),
            },
    {
        proof {
            reveal(spec_module_step);
            reveal_strlit("import");
            reveal_strlit("require");
            reveal_strlit("alias");
            reveal_strlit("const");
            reveal_strlit("function");
            reveal_strlit("var");
            reveal_strlit("script");
            reveal_strlit("name");
            reveal_strlit("target");
        }
        let head = child.head.as_str();
        if str_is(head, "import") || str_is(head, "require") {
            let target = match required_attr(child, "name") {
                Ok(n) => n,
                Err(e) => {
                    return Err(e);
                },
            };
            match validate_import_target(catalog, child, self.scope.current_module(), target) {
                Ok(()) => {},
                Err(e) => {
                    return Err(e);
                },
            }
            if str_is(head, "import") {
                self.scope.add_import(target.to_string());
            }
            return Ok(());
        }
        if str_is(head, "alias") {
            let target = match attr(child, "target") {
                Some(t) => t,
                None => match required_attr(child, "name") {
                    Ok(n) => n,
                    Err(e) => {
                        return Err(e);
                    },
                },
            };
            match validate_import_target(catalog, child, self.scope.current_module(), target) {
                Ok(()) => {},
                Err(e) => {
                    return Err(e);
                },
            }
            let alias = match alias_name(child) {
                Ok(a) => a,
                Err(e) => {
                    return Err(e);
                },
            };
            self.scope.add_alias(alias, target.to_string());
            return Ok(());
        }
        let resolver = ScopeResolver::new(catalog, consts, &self.scope);
        if str_is(head, "const") {
            let (name, value) = match analyze_const(child, &self.const_env, &resolver, &self.remaining) {
                Ok(x) => x,
                Err(e) => {
                    return Err(e);
                },
            };
            let ghost n = name@;
            let ghost v = value@;
            let ghost old_env = self.const_env;
            self.remaining.remove(name.as_str());
            self.const_env.insert(name, value);
            proof {
                assert forall|k: Seq<char>| #[trigger] spec_env_view(self.const_env).dom().contains(k)
                    == spec_env_view(old_env).insert(n, v).dom().contains(k) by {
                    if k != n {
                        assert(self.const_env.spec_get(k) == old_env.spec_get(k));
                    }
                }
                assert forall|k: Seq<char>| #[trigger] spec_env_view(self.const_env).dom().contains(k)
                    implies spec_env_view(self.const_env)[k] == spec_env_view(old_env).insert(n, v)[k] by {
                    if k != n {
                        assert(self.const_env.spec_get(k) == old_env.spec_get(k));
                    }
                }
                assert(spec_env_view(self.const_env) =~= spec_env_view(old_env).insert(n, v));
            }
            return Ok(());
        }
        if str_is(head, "function") {
            let f = match analyze_function(child, &self.const_env, &resolver, &self.remaining) {
                Ok(f) => f,
                Err(e) => {
                    return Err(e);
                },
            };
            let ghost before = self.functions@;
            self.functions.push(f);
            proof {
                assert(self.functions@.map_values(|f: SemanticFunction| spec_function_view(f)) =~= before.map_values(
                    |f: SemanticFunction| spec_function_view(f),
                ).push(spec_function_view(f)));
            }
            return Ok(());
        }
        if str_is(head, "var") {
            let name = match required_attr(child, "name") {
                Ok(n) => n.to_string(),
                Err(e) => {
                    return Err(e);
                },
            };
            let declared_type = match parse_declared_type_form(child) {
                Ok(t) => t,
                Err(e) => {
                    return Err(e);
                },
            };
            let body = match body_expr(child) {
                Ok(b) => b,
                Err(e) => {
                    return Err(e);
                },
            };
            let no_shadow = NameSet::new();
            let expr = match rewrite_var_expr(body.as_str(), &self.const_env, &resolver, &self.remaining, &no_shadow) {
                Ok(x) => x,
                Err(e) => {
                    return Err(e);
                },
            };
            let v = SemanticVar { name, declared_type, expr };
            let ghost before = self.vars@;
            self.vars.push(v);
            proof {
                assert(self.vars@.map_values(|v: SemanticVar| spec_var_view(v)) =~= before.map_values(
                    |v: SemanticVar| spec_var_view(v),
                ).push(spec_var_view(v)));
            }
            return Ok(());
        }
        if str_is(head, "script") {
            let s = match analyze_script(child, &resolver, &self.const_env, &self.remaining) {
                Ok(s) => s,
                Err(e) => {
                    return Err(e);
                },
            };
            let ghost before = self.scripts@;
            self.scripts.push(s);
            proof {
                assert(self.scripts@.map_values(|s: SemanticScript| spec_script_view(s)) =~= before.map_values(
                    |s: SemanticScript| spec_script_view(s),
                ).push(spec_script_view(s)));
            }
            return Ok(());
        }
        Err(error_at(child, FormIssue::UnsupportedModuleChild(child.head.clone())))
    }
}

/// Analyzes the children of a module in order, against the modules of the
/// program and the const values of the other modules.
pub fn analyze_module(module: &ModuleState, catalog: &ModuleCatalog, consts: &ConstCatalog) -> (r: Result<SemanticModule, ScriptLangError>)
    requires
        catalog.wf(),
        consts.wf(),
    ensures
        match r {
            Ok(m) => spec_analyze_module(*module, *catalog, *consts) == Ok::<_, ErrorView>(spec_module_view(m)),
            Err(e) => spec_analyze_module(*module, *catalog, *consts) == Err::<(
                Seq<char>,
                Seq<(Seq<char>, Seq<Seq<char>>, DeclaredType, Seq<char>)>,
                Seq<(Seq<char>, DeclaredType, Seq<char>)>,
                Seq<(Seq<char>, Seq<StmtView>)>,
            ), ErrorView>(e@),
        },
{
    proof {
        reveal_strlit("const");
        reveal_strlit("name");
    }
    let name = match &module.module_name {
        Some(n) => string_from_chars(&chars_of(n.as_str())),
        None => {
            return Err(ScriptLangError::MissingModuleName);
        },
    };
    let children = &module.children;
    let mut future = NameSet::new();
    let ghost future_target = spec_future_consts(children@, Set::empty());
    let mut i: usize = 0;
    assert(children@.skip(0) =~= children@);
    while i < children.len()
        invariant
            future.wf(),
            i <= children@.len(),
            future_target == spec_future_consts(children@, Set::empty()),
            spec_future_consts(children@.skip(i as int), future.view_set()) == future_target,
            module.module_name matches Some(n) && n@ == name@,
            children@ == module.children@,
        decreases children@.len() - i,
    {
        proof {
            assert(children@.skip(i as int)[0] == children@[i as int]);
            assert(children@.skip(i as int).drop_first() =~= children@.skip(i + 1));
        }
        let child = &children[i];
        if str_is(child.head.as_str(), "const") {
            let n = match required_attr(child, "name") {
                Ok(n) => n,
                Err(e) => {
                    return Err(e);
                },
            };
            future.insert(n.to_string());
        }
        i = i + 1;
    }
    proof {
        assert(children@.skip(children@.len() as int) =~= Seq::<Form>::empty());
    }
    let mut analyzer = ModuleAnalyzer {
        scope: ModuleScope::initial(catalog, name.as_str()),
        const_env: NameMap::new(),
        remaining: future,
        functions: Vec::new(),
        vars: Vec::new(),
        scripts: Vec::new(),
    };
    proof {
        assert(spec_env_view(analyzer.const_env) =~= Map::<Seq<char>, ConstView>::empty());
        assert(analyzer.functions@.map_values(|f: SemanticFunction| spec_function_view(f)) =~= Seq::<(Seq<char>, Seq<Seq<char>>, DeclaredType, Seq<char>)>::empty());
        assert(analyzer.vars@.map_values(|v: SemanticVar| spec_var_view(v)) =~= Seq::<(Seq<char>, DeclaredType, Seq<char>)>::empty());
        assert(analyzer.scripts@.map_values(|s: SemanticScript| spec_script_view(s)) =~= Seq::<(Seq<char>, Seq<StmtView>)>::empty());
    }
    let ghost start = analyzer.progress();
    let ghost target = spec_module_children(start, children@, *catalog, *consts);
    proof {
        assert(start == ModuleProgress {
            scope: spec_initial_scope(*catalog, name@),
            env: Map::empty(),
            remaining: future_target->Ok_0,
            functions: Seq::empty(),
            vars: Seq::empty(),
            scripts: Seq::empty(),
        });
        assert(children@.skip(0) =~= children@);
    }
    let mut j: usize = 0;
    while j < children.len()
        invariant
            analyzer.wf(),
            catalog.wf(),
            consts.wf(),
            j <= children@.len(),
            spec_analyze_module(*module, *catalog, *consts) == match target {
                Ok(st) => Ok((name@, st.functions, st.vars, st.scripts)),
                Err(e) => Err(e),
            },
            spec_module_children(analyzer.progress(), children@.skip(j as int), *catalog, *consts) == target,
        decreases children@.len() - j,
    {
        proof {
            assert(children@.skip(j as int)[0] == children@[j as int]);
            assert(children@.skip(j as int).drop_first() =~= children@.skip(j + 1));
        }
        match analyzer.step(&children[j], catalog, consts) {
            Ok(()) => {},
            Err(e) => {
                return Err(e);
            },
        }
        j = j + 1;
    }
    proof {
        assert(children@.skip(children@.len() as int) =~= Seq::<Form>::empty());
    }
    let ModuleAnalyzer { scope: _, const_env: _, remaining: _, functions, vars, scripts } = analyzer;
    Ok(SemanticModule { name, functions, vars, scripts })
}

/// The modules of a program analyzed in program order.
pub open spec fn spec_analyze_modules(p: ProgramState, order: Seq<String>, catalog: ModuleCatalog, consts: ConstCatalog) -> Result<
    Seq<(Seq<char>, Seq<(Seq<char>, Seq<Seq<char>>, DeclaredType, Seq<char>)>, Seq<(Seq<char>, DeclaredType, Seq<char>)>, Seq<(Seq<char>, Seq<StmtView>)>)>,
    ErrorView,
>
    decreases order.len(),
{
    if order.len() == 0 {
        Ok(Seq::empty())
    } else {
        match p.modules.spec_get(order[0]@) {
            None => Err(ErrorView::MissingModuleState(order[0]@)),
            Some(m) => match spec_analyze_module(m, catalog, consts) {
                Err(e) => Err(e),
                Ok(v) => match spec_analyze_modules(p, order.drop_first(), catalog, consts) {
                    Ok(rest) => Ok(seq![v] + rest),
                    Err(e) => Err(e),
                },
            },
        }
    }
}

/// The first name of `order` that has no module state, if any.
pub open spec fn spec_first_missing_module(p: ProgramState, order: Seq<String>) -> Option<Seq<char>>
    decreases order.len(),
{
    if order.len() == 0 {
        None
    } else if !p.modules.spec_contains(order[0]@) {
        Some(order[0]@)
    } else {
        spec_first_missing_module(p, order.drop_first())
    }
}

/// A program analyzed: every module of the order must have state; then
/// the modules are analyzed in order.
pub open spec fn spec_analyze_program(p: ProgramState, catalog: ModuleCatalog, consts: ConstCatalog) -> Result<
    Seq<(Seq<char>, Seq<(Seq<char>, Seq<Seq<char>>, DeclaredType, Seq<char>)>, Seq<(Seq<char>, DeclaredType, Seq<char>)>, Seq<(Seq<char>, Seq<StmtView>)>)>,
    ErrorView,
> {
    match spec_first_missing_module(p, p.module_order@) {
        Some(m) => Err(ErrorView::MissingModuleState(m)),
        None => spec_analyze_modules(p, p.module_order@, catalog, consts),
    }
}

/// Analyzes every module of the program in program order.
pub fn analyze_program(program: &ProgramState, catalog: &ModuleCatalog, consts: &ConstCatalog) -> (r: Result<SemanticProgram, ScriptLangError>)
    requires
        program.modules.wf(),
        catalog.wf(),
        consts.wf(),
    ensures
        match r {
            Ok(p) => spec_analyze_program(*program, *catalog, *consts) == Ok::<_, ErrorView>(
                p.modules@.map_values(|m: SemanticModule| spec_module_view(m)),
            ),
            Err(e) => spec_analyze_program(*program, *catalog, *consts) == Err::<Seq<(
                Seq<char>,
                Seq<(Seq<char>, Seq<Seq<char>>, DeclaredType, Seq<char>)>,
                Seq<(Seq<char>, DeclaredType, Seq<char>)>,
                Seq<(Seq<char>, Seq<StmtView>)>,
            )>, ErrorView>(e@),
        },
{
    let order = &program.module_order;
    let mut i: usize = 0;
    assert(order@.skip(0) =~= order@);
    while i < order.len()
        invariant
            program.modules.wf(),
            order@ == program.module_order@,
            i <= order@.len(),
            spec_first_missing_module(*program, order@.skip(i as int)) == spec_first_missing_module(*program, order@),
        decreases order@.len() - i,
    {
        proof {
            assert(order@.skip(i as int)[0] == order@[i as int]);
            assert(order@.skip(i as int).drop_first() =~= order@.skip(i + 1));
        }
        if !program.modules.contains_key(order[i].as_str()) {
            return Err(ScriptLangError::MissingModuleState(string_from_chars(&chars_of(order[i].as_str()))));
        }
        i = i + 1;
    }
    proof {
        assert(order@.skip(order@.len() as int) =~= Seq::<String>::empty());
    }
    let ghost target = spec_analyze_modules(*program, order@, *catalog, *consts);
    let mut modules: Vec<SemanticModule> = Vec::new();
    let mut j: usize = 0;
    assert(order@.skip(0) =~= order@);
    while j < order.len()
        invariant
            program.modules.wf(),
            catalog.wf(),
            consts.wf(),
            order@ == program.module_order@,
            j <= order@.len(),
            target == spec_analyze_modules(*program, order@, *catalog, *consts),
            spec_first_missing_module(*program, program.module_order@) is None,
            match spec_analyze_modules(*program, order@.skip(j as int), *catalog, *consts) {
                Ok(rest) => target == Ok::<_, ErrorView>(modules@.map_values(|m: SemanticModule| spec_module_view(m)) + rest),
                Err(e) => target == Err::<Seq<(
                    Seq<char>,
                    Seq<(Seq<char>, Seq<Seq<char>>, DeclaredType, Seq<char>)>,
                    Seq<(Seq<char>, DeclaredType, Seq<char>)>,
                    Seq<(Seq<char>, Seq<StmtView>)>,
                )>, ErrorView>(e),
            },
        decreases order@.len() - j,
    {
        proof {
            assert(order@.skip(j as int)[0] == order@[j as int]);
            assert(order@.skip(j as int).drop_first() =~= order@.skip(j + 1));
        }
        let m = match program.modules.get(order[j].as_str()) {
            Some(m) => m,
            None => {
                return Err(ScriptLangError::MissingModuleState(string_from_chars(&chars_of(order[j].as_str()))));
            },
        };
        let analyzed = match analyze_module(m, catalog, consts) {
            Ok(a) => a,
            Err(e) => {
                return Err(e);
            },
        };
        let ghost before = modules@;
        let ghost v = spec_module_view(analyzed);
        modules.push(analyzed);
        proof {
            assert(modules@.map_values(|m: SemanticModule| spec_module_view(m)) =~= before.map_values(
                |m: SemanticModule| spec_module_view(m),
            ).push(v));
            match spec_analyze_modules(*program, order@.skip(j + 1), *catalog, *consts) {
                Ok(rest) => {
                    assert(before.map_values(|m: SemanticModule| spec_module_view(m)) + (seq![v] + rest)
                        =~= modules@.map_values(|m: SemanticModule| spec_module_view(m)) + rest);
                },
                Err(_) => {},
            }
        }
        j = j + 1;
    }
    proof {
        assert(order@.skip(order@.len() as int) =~= Seq::<String>::empty());
        assert(modules@.map_values(|m: SemanticModule| spec_module_view(m)) + Seq::empty()
            =~= modules@.map_values(|m: SemanticModule| spec_module_view(m)));
    }
    Ok(SemanticProgram { modules })
}

} // verus!
