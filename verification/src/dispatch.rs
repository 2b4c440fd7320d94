//! Where a form is being expanded, and how: a built-in rule handles the
//! forms it knows in each position, a macro the forms a module defines.
use vstd::prelude::*;
use crate::classify::str_is;
use crate::env::{ExpandEnv, ProgramState, spec_macro_at, spec_names_of, spec_resolve_macro};
use crate::form::Form;

verus! {

/// Where a form stands while it is expanded: as a module child or as a
/// statement.
#[derive(Clone, Copy, Debug, PartialEq, Eq)]
pub enum ExpandRuleScope {
    ModuleChild,
    Statement,
}

/// How a form is expanded: by a built-in rule or by a macro.
#[derive(Clone, Copy, Debug, PartialEq, Eq)]
pub enum ExpandDispatch {
    Builtin,
    MacroHook,
}

/// Where a macro may be invoked.
#[derive(Clone, Copy, Debug, PartialEq, Eq)]
pub enum MacroScope {
    ModuleChild,
    Statement,
}

/// The macro scope that matches an expansion scope.
pub fn envless_scope(scope: ExpandRuleScope) -> (r: MacroScope)
    ensures
        scope == ExpandRuleScope::ModuleChild ==> r == MacroScope::ModuleChild,
        scope == ExpandRuleScope::Statement ==> r == MacroScope::Statement,
{
    match scope {
        ExpandRuleScope::ModuleChild => MacroScope::ModuleChild,
        ExpandRuleScope::Statement => MacroScope::Statement,
    }
}

/// The heads a built-in rule expands: `script`, `var` and `temp` as module
/// children; `temp`, `while`, `choice` and `option` as statements.
pub open spec fn spec_has_builtin_rule(head: Seq<char>, scope: ExpandRuleScope) -> bool {
    match scope {
        ExpandRuleScope::ModuleChild => head == "script"@ || head == "var"@ || head == "temp"@,
        ExpandRuleScope::Statement => head == "temp"@ || head == "while"@ || head == "choice"@ || head == "option"@,
    }
}

/// Whether some module of the program defines a macro named `n`.
pub open spec fn spec_macro_defined_anywhere(p: ProgramState, n: Seq<char>) -> bool {
    exists|m: Seq<char>| (#[trigger] spec_macro_at(p, m, n)) is Some
}

/// How a form is expanded: by its built-in rule when there is one, else by
/// a macro when one of its name is visible or defined in any module, else
/// by the built-in fallback.
pub open spec fn spec_dispatch(head: Seq<char>, env: ExpandEnv, scope: ExpandRuleScope) -> ExpandDispatch {
    if spec_has_builtin_rule(head, scope) {
        ExpandDispatch::Builtin
    } else if spec_resolve_macro(env.program, match env.module.module_name {
        Some(m) => Some(m@),
        None => None,
    }, spec_names_of(env.module.requires@), head) is Some || spec_macro_defined_anywhere(env.program, head) {
        ExpandDispatch::MacroHook
    } else {
        ExpandDispatch::Builtin
    }
}

/// Whether a built-in rule expands the form in this position.
pub fn has_builtin_rule(form: &Form, scope: ExpandRuleScope) -> (b: bool)
    ensures
        b == spec_has_builtin_rule(form.head@, scope),
{
    let h = form.head.as_str();
    match scope {
        ExpandRuleScope::ModuleChild => str_is(h, "script") || str_is(h, "var") || str_is(h, "temp"),
        ExpandRuleScope::Statement => str_is(h, "temp") || str_is(h, "while") || str_is(h, "choice") || str_is(h, "option"),
    }
}

/// Whether any module of the program defines a macro named as the form's
/// head, visible from here or not.
pub fn is_macro_in_requires(form: &Form, env: &ExpandEnv) -> (b: bool)
    requires
        env.program.wf(),
    ensures
        b == spec_macro_defined_anywhere(env.program, form.head@),
{
    let p = &env.program;
    let mut i: usize = 0;
    while i < p.module_macros.entries.len()
        invariant
            p.wf(),
            *p == env.program,
            i <= p.module_macros.entries@.len(),
            forall|j: int| 0 <= j < i ==> !(#[trigger] p.module_macros.entries@[j]).1.spec_contains(form.head@),
        decreases p.module_macros.entries@.len() - i,
    {
        if p.module_macros.entries[i].1.contains_key(form.head.as_str()) {
            proof {
                let m = p.module_macros.entries@[i as int].0@;
                p.module_macros.lemma_get_at(i as int);
                assert(p.module_macros.spec_get(m) == Some(p.module_macros.entries@[i as int].1));
                assert(p.module_macros.entries@[i as int].1.spec_get(form.head@) is Some);
                assert(spec_macro_at(*p, m, form.head@) is Some);
                assert(spec_macro_at(env.program, m, form.head@) is Some);
            }
            return true;
        }
        i = i + 1;
    }
    proof {
        assert forall|m: Seq<char>| !((#[trigger] spec_macro_at(*p, m, form.head@)) is Some) by {
            if p.module_macros.spec_contains(m) {
                let j = p.module_macros.spec_index_of(m);
                assert(!p.module_macros.entries@[j].1.spec_contains(form.head@));
            }
        }
    }
    false
}

/// How the form is expanded in this position.
pub fn dispatch_rule(form: &Form, env: &ExpandEnv, scope: ExpandRuleScope) -> (r: ExpandDispatch)
    requires
        env.wf(),
    ensures
        r == spec_dispatch(form.head@, *env, scope),
{
    if has_builtin_rule(form, scope) {
        ExpandDispatch::Builtin
    } else if env.resolve_macro(form.head.as_str()).is_some() || is_macro_in_requires(form, env) {
        ExpandDispatch::MacroHook
    } else {
        ExpandDispatch::Builtin
    }
}

} // verus!
