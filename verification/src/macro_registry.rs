//! Collecting the macros a program defines: every `<macro>` of every module,
//! nested modules under their qualified names, registered before any
//! expansion so that a module can use a macro defined after it.
use vstd::prelude::*;
use crate::classify::str_is;
use crate::env::{ExpandEnv, MacroDefinition, ProgramState, spec_macro_at};
use crate::errors::{ErrorView, FormIssue, FormIssueView, ScriptLangError};
use crate::form::{
    Form, FormItem, FormValue, ItemView, child_forms, copy_items, error_at, find_field, required_attr, spec_attr,
    spec_child_forms, spec_error_at, spec_find_field, spec_items_deep,
};
use crate::names::{qualified_member_name, spec_qualified_member_name};

verus! {

/// A macro as registration sees it: its module, its name and its body.
pub struct MacroReg {
    pub module_name: Seq<char>,
    pub name: Seq<char>,
    pub body: Seq<ItemView>,
}

/// The macro a definition registers.
pub open spec fn spec_def_reg(d: MacroDefinition) -> MacroReg {
    MacroReg { module_name: d.module_name@, name: d.name@, body: spec_items_deep(d.body@) }
}

/// The last registration of `name` in module `m`.
pub open spec fn spec_reg_find(regs: Seq<MacroReg>, m: Seq<char>, n: Seq<char>) -> Option<MacroReg>
    decreases regs.len(),
{
    if regs.len() == 0 {
        None
    } else if regs.last().module_name == m && regs.last().name == n {
        Some(regs.last())
    } else {
        spec_reg_find(regs.drop_last(), m, n)
    }
}

/// Whether `n` of module `m` is taken, before collecting or by it.
pub open spec fn spec_registered(p0: ProgramState, regs: Seq<MacroReg>, m: Seq<char>, n: Seq<char>) -> bool {
    spec_macro_at(p0, m, n) is Some || spec_reg_find(regs, m, n) is Some
}

/// The registry `cur` is `p0` with `regs` registered: each registered macro
/// plain (no parameters, no binding protocol), every other one as before.
pub open spec fn spec_registry_after(cur: ProgramState, p0: ProgramState, regs: Seq<MacroReg>) -> bool {
    &&& cur.wf()
    &&& cur.modules == p0.modules
    &&& cur.module_order == p0.module_order
    &&& forall|m: Seq<char>, n: Seq<char>| match spec_reg_find(regs, m, n) {
        Some(reg) => #[trigger] spec_macro_at(cur, m, n) matches Some(d) && spec_def_reg(d) == reg && d.params is None
            && d.legacy_protocol is None,
        None => spec_macro_at(cur, m, n) == spec_macro_at(p0, m, n),
    }
}

/// The items of the first field named `name` that holds a sequence.
pub open spec fn spec_find_seq_field(fields: Seq<crate::form::FormField>, name: Seq<char>, i: int) -> Option<Seq<FormItem>>
    decreases fields.len() - i,
{
    if i < 0 || i >= fields.len() {
        None
    } else if fields[i].name@ == name && fields[i].value is Sequence {
        match fields[i].value {
            FormValue::Sequence(items) => Some(items@),
            FormValue::String(_) => None,
        }
    } else {
        spec_find_seq_field(fields, name, i + 1)
    }
}

/// A `<macro>` form of module `module_name`: its `name`, and the items of
/// its first `children` sequence as the body.
pub open spec fn spec_parse_macro(form: Form, module_name: Seq<char>) -> Result<MacroReg, ErrorView> {
    match spec_attr(form, "name"@) {
        None => Err(spec_error_at(form, FormIssueView::MissingAttr(form.head@, "name"@))),
        Some(n) => match spec_find_seq_field(form.fields@, "children"@, 0) {
            Some(items) => Ok(MacroReg { module_name, name: n, body: spec_items_deep(items) }),
            None => Err(spec_error_at(form, FormIssueView::MacroNeedsChildren)),
        },
    }
}

/// The name a module form declares, under its parent's name when nested.
pub open spec fn spec_module_full_name(raw: Seq<char>, parent: Option<Seq<char>>) -> Seq<char> {
    match parent {
        Some(p) => spec_qualified_member_name(p, raw),
        None => raw,
    }
}

/// Collecting a module form: the registrations made, in order, and the
/// error that stopped it, if any. The module needs a `name` and a valid
/// statement body; its `<macro>` children are registered, its `<module>`
/// children collected under its name, other children skipped.
pub open spec fn spec_collect_module(p0: ProgramState, regs: Seq<MacroReg>, form: Form, parent: Option<Seq<char>>) -> (
    Seq<MacroReg>,
    Option<ErrorView>,
)
    decreases form, 0int,
{
    match spec_attr(form, "name"@) {
        None => (regs, Some(spec_error_at(form, FormIssueView::MissingAttr(form.head@, "name"@)))),
        Some(raw) => {
            let name = spec_module_full_name(raw, parent);
            match spec_child_forms(form) {
                Err(e) => (regs, Some(e)),
                Ok(_) => match spec_find_field(form.fields@, "children"@, 0) {
                    Some(k) => if 0 <= k < form.fields@.len() {
                        match form.fields@[k].value {
                            FormValue::Sequence(items) => {
                                proof {
                                    assert(decreases_to!(form => form.fields));
                                    assert(decreases_to!(form.fields => form.fields@));
                                    assert(decreases_to!(form.fields@ => form.fields@[k]));
                                    assert(decreases_to!(form.fields@[k] => form.fields@[k].value));
                                    assert(decreases_to!(form.fields@[k].value => items));
                                    assert(decreases_to!(items => items@));
                                }
                                spec_collect_items(p0, regs, items@, name, 0)
                            },
                            FormValue::String(_) => (regs, None),
                        }
                    } else {
                        (regs, None)
                    },
                    None => (regs, None),
                },
            }
        },
    }
}

/// Collecting one child of module `name`.
pub open spec fn spec_collect_child(p0: ProgramState, regs: Seq<MacroReg>, f: Form, name: Seq<char>) -> (
    Seq<MacroReg>,
    Option<ErrorView>,
)
    decreases f, 1int,
{
    if f.head@ == "macro"@ {
        match spec_parse_macro(f, name) {
            Err(e) => (regs, Some(e)),
            Ok(reg) => if spec_registered(p0, regs, name, reg.name) {
                (regs, Some(spec_error_at(f, FormIssueView::DuplicateMacro(name, reg.name))))
            } else {
                (regs.push(reg), None)
            },
        }
    } else if f.head@ == "module"@ {
        spec_collect_module(p0, regs, f, Some(name))
    } else {
        (regs, None)
    }
}

/// Collecting the children `items[i..]` of module `name`.
pub open spec fn spec_collect_items(p0: ProgramState, regs: Seq<MacroReg>, items: Seq<FormItem>, name: Seq<char>, i: int) -> (
    Seq<MacroReg>,
    Option<ErrorView>,
)
    decreases items, if 0 <= i <= items.len() {
        items.len() - i + 2
    } else {
        0
    },
{
    if i < 0 || i >= items.len() {
        (regs, None)
    } else {
        match items[i] {
            FormItem::Text(_) => spec_collect_items(p0, regs, items, name, i + 1),
            FormItem::Form(f) => {
                proof {
                    assert(decreases_to!(items => items[i]));
                    assert(decreases_to!(items[i] => f));
                }
                let step = spec_collect_child(p0, regs, f, name);
                match step.1 {
                    Some(e) => (step.0, Some(e)),
                    None => spec_collect_items(p0, step.0, items, name, i + 1),
                }
            },
        }
    }
}

/// Collecting the top-level forms `forms[i..]`: each must be a `<module>`.
pub open spec fn spec_collect_program(p0: ProgramState, regs: Seq<MacroReg>, forms: Seq<Form>, i: int) -> (
    Seq<MacroReg>,
    Option<ErrorView>,
)
    decreases forms.len() - i,
{
    if i < 0 || i >= forms.len() {
        (regs, None)
    } else if forms[i].head@ != "module"@ {
        (regs, Some(spec_error_at(forms[i], FormIssueView::TopLevelUnsupported(forms[i].head@))))
    } else {
        let step = spec_collect_module(p0, regs, forms[i], None);
        match step.1 {
            Some(e) => (step.0, Some(e)),
            None => spec_collect_program(p0, step.0, forms, i + 1),
        }
    }
}

/// Where a field scan for a sequence named `name` ends up.
fn find_seq_field<'a>(form: &'a Form, name: &str) -> (r: Option<&'a Vec<FormItem>>)
    ensures
        match r {
            Some(items) => spec_find_seq_field(form.fields@, name@, 0) == Some(items@),
            None => spec_find_seq_field(form.fields@, name@, 0) is None,
        },
{
    let mut i: usize = 0;
    while i < form.fields.len()
        invariant
            i <= form.fields@.len(),
            spec_find_seq_field(form.fields@, name@, i as int) == spec_find_seq_field(form.fields@, name@, 0),
        decreases form.fields@.len() - i,
    {
        if str_is(form.fields[i].name.as_str(), name) {
            match &form.fields[i].value {
                FormValue::Sequence(items) => {
                    return Some(items);
                },
                FormValue::String(_) => {},
            }
        }
        i = i + 1;
    }
    None
}

/// Reads a `<macro>` form of module `module_name` into a definition with
/// no parameters and no binding protocol.
pub fn parse_macro_definition(form: &Form, module_name: &str) -> (r: Result<MacroDefinition, ScriptLangError>)
    ensures
        match r {
            Ok(d) => spec_parse_macro(*form, module_name@) == Ok::<MacroReg, ErrorView>(spec_def_reg(d))
                && d.params is None && d.legacy_protocol is None,
            Err(e) => spec_parse_macro(*form, module_name@) == Err::<MacroReg, ErrorView>(e@),
        },
{
    proof {
        reveal_strlit("name");
        reveal_strlit("children");
    }
    let name = match required_attr(form, "name") {
        Ok(n) => n,
        Err(e) => {
            return Err(e);
        },
    };
    let body = match find_seq_field(form, "children") {
        Some(items) => copy_items(items),
        None => {
            return Err(error_at(form, FormIssue::MacroNeedsChildren));
        },
    };
    Ok(MacroDefinition {
        module_name: module_name.to_string(),
        name: name.to_string(),
        params: None,
        legacy_protocol: None,
        body,
    })
}

proof fn lemma_reg_find_push(regs: Seq<MacroReg>, reg: MacroReg, m: Seq<char>, n: Seq<char>)
    ensures
        spec_reg_find(regs.push(reg), m, n) == if reg.module_name == m && reg.name == n {
            Some(reg)
        } else {
            spec_reg_find(regs, m, n)
        },
{
    assert(regs.push(reg).drop_last() =~= regs);
}

/// Registers `definition`, read from the `<macro>` form `child`; a name its
/// module already has is an error located at `child`.
fn register_collected(env: &mut ExpandEnv, definition: MacroDefinition, child: &Form, Ghost(p0): Ghost<ProgramState>, Ghost(regs): Ghost<Seq<MacroReg>>) -> (r: Result<(), ScriptLangError>)
    requires
        spec_registry_after(old(env).program, p0, regs),
        definition.params is None,
        definition.legacy_protocol is None,
    ensures
        *final(env) == (ExpandEnv { program: final(env).program, ..*old(env) }),
        match r {
            Ok(()) => !spec_registered(p0, regs, definition.module_name@, definition.name@)
                && spec_registry_after(final(env).program, p0, regs.push(spec_def_reg(definition))),
            Err(e) => spec_registered(p0, regs, definition.module_name@, definition.name@)
                && spec_registry_after(final(env).program, p0, regs)
                && e@ == spec_error_at(*child, FormIssueView::DuplicateMacro(definition.module_name@, definition.name@)),
        },
{
    let ghost def = definition;
    let ghost before = env.program;
    let module_name = definition.module_name.clone();
    let name = definition.name.clone();
    proof {
        let m = def.module_name@;
        let n = def.name@;
        assert(spec_macro_at(before, m, n) is Some <==> spec_registered(p0, regs, m, n));
    }
    match env.program.register_macro(definition) {
        Ok(()) => {
            proof {
                let reg = spec_def_reg(def);
                assert forall|m: Seq<char>, n: Seq<char>| match spec_reg_find(regs.push(reg), m, n) {
                    Some(x) => #[trigger] spec_macro_at(env.program, m, n) matches Some(d) && spec_def_reg(d) == x
                        && d.params is None && d.legacy_protocol is None,
                    None => spec_macro_at(env.program, m, n) == spec_macro_at(p0, m, n),
                } by {
                    lemma_reg_find_push(regs, reg, m, n);
                }
            }
            Ok(())
        },
        Err(_) => {
            proof {
                assert forall|m: Seq<char>, n: Seq<char>| match spec_reg_find(regs, m, n) {
                    Some(x) => #[trigger] spec_macro_at(env.program, m, n) matches Some(d) && spec_def_reg(d) == x
                        && d.params is None && d.legacy_protocol is None,
                    None => spec_macro_at(env.program, m, n) == spec_macro_at(p0, m, n),
                } by {
                    assert(spec_macro_at(env.program, m, n) == spec_macro_at(before, m, n));
                }
            }
            Err(error_at(child, FormIssue::DuplicateMacro(module_name, name)))
        },
    }
}

/// Collects the macros of a module form and of the modules nested in it.
fn collect_module_macros(form: &Form, parent_module: Option<&str>, env: &mut ExpandEnv, Ghost(p0): Ghost<ProgramState>, Ghost(regs): Ghost<Seq<MacroReg>>) -> (r: (Result<(), ScriptLangError>, Ghost<Seq<MacroReg>>))
    requires
        spec_registry_after(old(env).program, p0, regs),
    ensures
        *final(env) == (ExpandEnv { program: final(env).program, ..*old(env) }),
        ({
            let s = spec_collect_module(p0, regs, *form, match parent_module {
                Some(p) => Some(p@),
                None => None,
            });
            &&& r.1@ == s.0
            &&& spec_registry_after(final(env).program, p0, s.0)
            &&& match r.0 {
                Ok(()) => s.1 is None,
                Err(e) => s.1 == Some(e@),
            }
        }),
    decreases form, 0int,
{
    proof {
        reveal_strlit("name");
        reveal_strlit("children");
    }
    let raw = match required_attr(form, "name") {
        Ok(n) => n,
        Err(e) => {
            return (Err(e), Ghost(regs));
        },
    };
    let module_name = match parent_module {
        Some(parent) => qualified_member_name(parent, raw),
        None => raw.to_string(),
    };
    match child_forms(form) {
        Ok(_) => {},
        Err(e) => {
            return (Err(e), Ghost(regs));
        },
    }
    let k = match find_field(form, "children") {
        Some(k) => k,
        None => {
            return (Ok(()), Ghost(regs));
        },
    };
    let items = match &form.fields[k].value {
        FormValue::Sequence(items) => items,
        FormValue::String(_) => {
            return (Ok(()), Ghost(regs));
        },
    };
    proof {
        assert(decreases_to!(form => form.fields));
        assert(decreases_to!(form.fields => form.fields@));
        assert(decreases_to!(form.fields@ => form.fields@[k as int]));
        assert(decreases_to!(form.fields@[k as int] => form.fields@[k as int].value));
        assert(decreases_to!(form.fields@[k as int].value => *items));
    }
    let ghost name = module_name@;
    let ghost mut cur = regs;
    let mut i: usize = 0;
    while i < items.len()
        invariant
            i <= items@.len(),
            spec_registry_after(env.program, p0, cur),
            *env == (ExpandEnv { program: env.program, ..*old(env) }),
            name == module_name@,
            spec_collect_module(p0, regs, *form, match parent_module {
                Some(p) => Some(p@),
                None => None,
            }) == spec_collect_items(p0, cur, items@, name, i as int),
            decreases_to!(form => *items),
        decreases items@.len() - i,
    {
        match &items[i] {
            FormItem::Text(_) => {},
            FormItem::Form(child) => {
                proof {
                    assert(decreases_to!(*items => items@));
                    assert(decreases_to!(items@ => items@[i as int]));
                    assert(decreases_to!(items@[i as int] => *child));
                }
                if str_is(child.head.as_str(), "macro") {
                    proof {
                        reveal_strlit("macro");
                    }
                    let definition = match parse_macro_definition(child, module_name.as_str()) {
                        Ok(d) => d,
                        Err(e) => {
                            proof {
                                assert(spec_collect_child(p0, cur, *child, name) == (cur, Some(e@)));
                                assert(spec_collect_items(p0, cur, items@, name, i as int) == (cur, Some(e@)));
                            }
                            return (Err(e), Ghost(cur));
                        },
                    };
                    let ghost reg = spec_def_reg(definition);
                    proof {
                        assert(spec_parse_macro(*child, name) == Ok::<MacroReg, ErrorView>(reg));
                    }
                    match register_collected(env, definition, child, Ghost(p0), Ghost(cur)) {
                        Ok(()) => {
                            proof {
                                assert(spec_collect_child(p0, cur, *child, name) == (cur.push(reg), None::<ErrorView>));
                                assert(spec_collect_items(p0, cur, items@, name, i as int) == spec_collect_items(
                                    p0,
                                    cur.push(reg),
                                    items@,
                                    name,
                                    i + 1,
                                ));
                                cur = cur.push(reg);
                            }
                        },
                        Err(e) => {
                            proof {
                                assert(spec_collect_child(p0, cur, *child, name) == (cur, Some(e@)));
                                assert(spec_collect_items(p0, cur, items@, name, i as int) == (cur, Some(e@)));
                            }
                            return (Err(e), Ghost(cur));
                        },
                    }
                } else if str_is(child.head.as_str(), "module") {
                    proof {
                        reveal_strlit("macro");
                        reveal_strlit("module");
                    }
                    let ghost old_cur = cur;
                    let (res, Ghost(next)) = collect_module_macros(child, Some(module_name.as_str()), env, Ghost(p0), Ghost(cur));
                    proof {
                        cur = next;
                    }
                    match res {
                        Ok(()) => {
                            proof {
                                assert(spec_collect_child(p0, old_cur, *child, name) == (cur, None::<ErrorView>));
                                assert(spec_collect_items(p0, old_cur, items@, name, i as int) == spec_collect_items(
                                    p0,
                                    cur,
                                    items@,
                                    name,
                                    i + 1,
                                ));
                            }
                        },
                        Err(e) => {
                            proof {
                                assert(spec_collect_child(p0, old_cur, *child, name) == (cur, Some(e@)));
                                assert(spec_collect_items(p0, old_cur, items@, name, i as int) == (cur, Some(e@)));
                            }
                            return (Err(e), Ghost(cur));
                        },
                    }
                } else {
                    proof {
                        reveal_strlit("macro");
                        reveal_strlit("module");
                        assert(spec_collect_child(p0, cur, *child, name) == (cur, None::<ErrorView>));
                        assert(spec_collect_items(p0, cur, items@, name, i as int) == spec_collect_items(
                            p0,
                            cur,
                            items@,
                            name,
                            i + 1,
                        ));
                    }
                }
            },
        }
        i = i + 1;
    }
    (Ok(()), Ghost(cur))
}

/// Registers the macros of every module of a program before expansion;
/// a top-level form that is not `<module>`, a malformed module or macro, or
/// a second macro of one name in one module stops it with an error.
pub fn collect_program_macros(forms: &[Form], env: &mut ExpandEnv) -> (r: Result<(), ScriptLangError>)
    requires
        old(env).program.wf(),
    ensures
        *final(env) == (ExpandEnv { program: final(env).program, ..*old(env) }),
        ({
            let s = spec_collect_program(old(env).program, Seq::empty(), forms@, 0);
            &&& spec_registry_after(final(env).program, old(env).program, s.0)
            &&& match r {
                Ok(()) => s.1 is None,
                Err(e) => s.1 == Some(e@),
            }
        }),
{
    let ghost p0 = env.program;
    let ghost mut cur: Seq<MacroReg> = Seq::empty();
    proof {
        reveal_strlit("module");
    }
    let mut i: usize = 0;
    while i < forms.len()
        invariant
            i <= forms@.len(),
            spec_registry_after(env.program, p0, cur),
            *env == (ExpandEnv { program: env.program, ..*old(env) }),
            p0 == old(env).program,
            spec_collect_program(p0, Seq::empty(), forms@, 0) == spec_collect_program(p0, cur, forms@, i as int),
        decreases forms@.len() - i,
    {
        let form = &forms[i];
        if !str_is(form.head.as_str(), "module") {
            return Err(error_at(form, FormIssue::TopLevelUnsupported(form.head.clone())));
        }
        let (res, Ghost(next)) = collect_module_macros(form, None, env, Ghost(p0), Ghost(cur));
        proof {
            cur = next;
        }
        match res {
            Ok(()) => {},
            Err(e) => {
                return Err(e);
            },
        }
        i = i + 1;
    }
    Ok(())
}

} // verus!
