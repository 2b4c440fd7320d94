//! Assembly of an analyzed program into an artifact: a runtime slot per
//! module var, the compiled functions, an id per script, the lowered scripts
//! and a boot script that initializes the globals and jumps to the entry.
use vstd::prelude::*;
use crate::collections::NameMap;
use crate::errors::{ErrorView, ScriptLangError};
use crate::lower::{
    Instruction, InstrView, ScriptDraft, lower_script, spec_block_len, spec_end_after, spec_instr_views,
    spec_lower_block,
};
use crate::names::{
    lower_resolved_vars_to_runtime_names, qualified_member_name, runtime_global_name, spec_lower_from,
    spec_qualified_member_name, spec_runtime_global_name,
};
use crate::pipeline::CompileOptions;
use crate::semantic::{SemanticFunction, SemanticModule, SemanticProgram, SemanticScript, SemanticVar, spec_stmt_views};
use crate::text::{chars_of, string_from_chars};

verus! {

/// A runtime global: its slot and the name the runtime knows it by.
#[derive(Debug, PartialEq, Eq)]
pub struct GlobalVar {
    pub global_id: usize,
    pub runtime_name: String,
}

/// A global with the expression that initializes it.
pub struct GlobalDecl {
    pub global: GlobalVar,
    pub initializer: String,
}

/// A function as the runtime runs it.
#[derive(Debug, PartialEq, Eq)]
pub struct CompiledFunction {
    pub param_names: Vec<String>,
    pub body: String,
}

/// A script as the runtime runs it.
#[derive(Debug, PartialEq, Eq)]
pub struct CompiledScript {
    pub script_id: usize,
    pub local_names: Vec<String>,
    pub instructions: Vec<Instruction>,
}

/// The result of a compile.
#[derive(Debug, PartialEq, Eq)]
pub struct CompiledArtifact {
    pub default_entry_script_id: usize,
    pub boot_script_id: usize,
    pub functions: NameMap<CompiledFunction>,
    pub script_refs: NameMap<usize>,
    pub scripts: Vec<CompiledScript>,
    pub globals: Vec<GlobalVar>,
}

/// What the declarations of a program give, as mathematical values: the
/// globals in order (runtime name, initializer), the functions by qualified
/// name (parameters, compiled body), the script ids by qualified name and
/// how many scripts there are.
pub struct DeclView {
    pub globals: Seq<(Seq<char>, Seq<char>)>,
    pub functions: Map<Seq<char>, (Seq<Seq<char>>, Seq<char>)>,
    pub script_refs: Map<Seq<char>, nat>,
    pub script_count: nat,
}

pub open spec fn spec_strings(v: Seq<String>) -> Seq<Seq<char>> {
    v.map_values(|s: String| s@)
}

/// No declarations.
pub open spec fn spec_empty_decls() -> DeclView {
    DeclView { globals: Seq::empty(), functions: Map::empty(), script_refs: Map::empty(), script_count: 0 }
}

/// The globals the vars of module `m` add: one each, in order.
pub open spec fn spec_add_vars(st: DeclView, m: Seq<char>, vars: Seq<SemanticVar>) -> DeclView {
    DeclView {
        globals: st.globals + vars.map_values(
            |v: SemanticVar| (spec_runtime_global_name(spec_qualified_member_name(m, v.name@)), v.expr@),
        ),
        functions: st.functions,
        script_refs: st.script_refs,
        script_count: st.script_count,
    }
}

/// The functions of module `m` added one after another; a qualified name
/// already taken is an error.
pub open spec fn spec_add_functions(st: DeclView, m: Seq<char>, fs: Seq<SemanticFunction>) -> Result<DeclView, ErrorView>
    decreases fs.len(),
{
    if fs.len() == 0 {
        Ok(st)
    } else {
        let q = spec_qualified_member_name(m, fs[0].name@);
        if st.functions.contains_key(q) {
            Err(ErrorView::DuplicateFunction(q))
        } else {
            spec_add_functions(
                DeclView {
                    globals: st.globals,
                    functions: st.functions.insert(q, (spec_strings(fs[0].param_names@), spec_lower_from(fs[0].body@, 0))),
                    script_refs: st.script_refs,
                    script_count: st.script_count,
                },
                m,
                fs.drop_first(),
            )
        }
    }
}

/// The scripts of module `m` given ids one after another; a qualified name
/// already taken is an error.
pub open spec fn spec_add_scripts(st: DeclView, m: Seq<char>, ss: Seq<SemanticScript>) -> Result<DeclView, ErrorView>
    decreases ss.len(),
{
    if ss.len() == 0 {
        Ok(st)
    } else {
        let q = spec_qualified_member_name(m, ss[0].name@);
        if st.script_refs.contains_key(q) {
            Err(ErrorView::DuplicateScript(q))
        } else {
            spec_add_scripts(
                DeclView {
                    globals: st.globals,
                    functions: st.functions,
                    script_refs: st.script_refs.insert(q, st.script_count),
                    script_count: st.script_count + 1,
                },
                m,
                ss.drop_first(),
            )
        }
    }
}

/// One module's declarations: its vars, then its functions, then its scripts.
pub open spec fn spec_collect_module(st: DeclView, m: SemanticModule) -> Result<DeclView, ErrorView> {
    match spec_add_functions(spec_add_vars(st, m.name@, m.vars@), m.name@, m.functions@) {
        Ok(s) => spec_add_scripts(s, m.name@, m.scripts@),
        Err(e) => Err(e),
    }
}

/// The declarations of the modules, module after module.
pub open spec fn spec_collect(st: DeclView, ms: Seq<SemanticModule>) -> Result<DeclView, ErrorView>
    decreases ms.len(),
{
    if ms.len() == 0 {
        Ok(st)
    } else {
        match spec_collect_module(st, ms[0]) {
            Ok(s) => spec_collect(s, ms.drop_first()),
            Err(e) => Err(e),
        }
    }
}

/// The functions of a compiled map, as mathematical values.
pub open spec fn spec_function_map(m: NameMap<CompiledFunction>) -> Map<Seq<char>, (Seq<Seq<char>>, Seq<char>)> {
    Map::new(
        |k: Seq<char>| m.spec_contains(k),
        |k: Seq<char>| (spec_strings(m.spec_get(k)->0.param_names@), m.spec_get(k)->0.body@),
    )
}

/// The ids of a script map, as mathematical values.
pub open spec fn spec_ref_map(m: NameMap<usize>) -> Map<Seq<char>, nat> {
    Map::new(|k: Seq<char>| m.spec_contains(k), |k: Seq<char>| m.spec_get(k)->0 as nat)
}

/// Gathers the declarations of a program and then lowers its scripts.
pub struct ProgramAssembler {
    pub functions: NameMap<CompiledFunction>,
    pub scripts: Vec<ScriptDraft>,
    pub script_refs: NameMap<usize>,
    pub globals: Vec<GlobalDecl>,
}

/// A copy of a list of names.
fn copy_strings(v: &Vec<String>) -> (r: Vec<String>)
    ensures
        spec_strings(r@) == spec_strings(v@),
{
    let mut out: Vec<String> = Vec::new();
    let mut i: usize = 0;
    while i < v.len()
        invariant
            i <= v@.len(),
            out@.len() == i,
            forall|j: int| 0 <= j < i ==> #[trigger] out@[j]@ == v@[j]@,
        decreases v@.len() - i,
    {
        out.push(string_from_chars(&chars_of(v[i].as_str())));
        i = i + 1;
    }
    assert(spec_strings(out@) =~= spec_strings(v@));
    out
}

impl ProgramAssembler {
    /// The declarations gathered so far.
    pub open spec fn decls(&self) -> DeclView {
        DeclView {
            globals: self.globals@.map_values(|g: GlobalDecl| (g.global.runtime_name@, g.initializer@)),
            functions: spec_function_map(self.functions),
            script_refs: spec_ref_map(self.script_refs),
            script_count: self.scripts@.len(),
        }
    }

    /// Maps ordered and globals numbered by position.
    pub open spec fn wf(&self) -> bool {
        &&& self.functions.wf()
        &&& self.script_refs.wf()
        &&& forall|i: int| 0 <= i < self.globals@.len() ==> (#[trigger] self.globals@[i]).global.global_id == i
    }

    /// Nothing declared.
    pub fn new() -> (r: Self)
        ensures
            r.wf(),
            r.decls() == spec_empty_decls(),
    {
        let r = ProgramAssembler {
            functions: NameMap::new(),
            scripts: Vec::new(),
            script_refs: NameMap::new(),
            globals: Vec::new(),
        };
        assert(r.decls().globals =~= Seq::<(Seq<char>, Seq<char>)>::empty());
        assert(r.decls().functions =~= Map::<Seq<char>, (Seq<Seq<char>>, Seq<char>)>::empty());
        assert(r.decls().script_refs =~= Map::<Seq<char>, nat>::empty());
        r
    }

    fn add_vars(&mut self, module_name: &str, vars: &Vec<SemanticVar>)
        requires
            old(self).wf(),
        ensures
            final(self).wf(),
            final(self).decls() == spec_add_vars(old(self).decls(), module_name@, vars@),
    {
        let ghost start = self.decls().globals;
        let mut j: usize = 0;
        while j < vars.len()
            invariant
                self.wf(),
                j <= vars@.len(),
                self.decls().globals == start + vars@.take(j as int).map_values(
                    |v: SemanticVar| (spec_runtime_global_name(spec_qualified_member_name(module_name@, v.name@)), v.expr@),
                ),
                self.decls().functions == old(self).decls().functions,
                self.decls().script_refs == old(self).decls().script_refs,
                self.decls().script_count == old(self).decls().script_count,
            decreases vars@.len() - j,
        {
            let qualified = qualified_member_name(module_name, vars[j].name.as_str());
            let runtime_name = runtime_global_name(qualified.as_str());
            let id = self.globals.len();
            let initializer = string_from_chars(&chars_of(vars[j].expr.as_str()));
            let ghost before = self.decls().globals;
            self.globals.push(GlobalDecl { global: GlobalVar { global_id: id, runtime_name }, initializer });
            proof {
                assert(self.decls().globals =~= before.push(
                    (spec_runtime_global_name(spec_qualified_member_name(module_name@, vars@[j as int].name@)), vars@[j as int].expr@),
                ));
                assert(vars@.take(j + 1) =~= vars@.take(j as int).push(vars@[j as int]));
            }
            j = j + 1;
        }
        assert(vars@.take(vars@.len() as int) =~= vars@);
    }

    fn add_functions(&mut self, module_name: &str, functions: &Vec<SemanticFunction>) -> (r: Result<(), ScriptLangError>)
        requires
            old(self).wf(),
        ensures
            final(self).wf(),
            match r {
                Ok(()) => spec_add_functions(old(self).decls(), module_name@, functions@) == Ok::<DeclView, ErrorView>(final(self).decls()),
                Err(e) => spec_add_functions(old(self).decls(), module_name@, functions@) == Err::<DeclView, ErrorView>(e@),
            },
    {
        let ghost target = spec_add_functions(self.decls(), module_name@, functions@);
        let mut j: usize = 0;
        assert(functions@.skip(0) =~= functions@);
        while j < functions.len()
            invariant
                self.wf(),
                j <= functions@.len(),
                spec_add_functions(self.decls(), module_name@, functions@.skip(j as int)) == target,
                target == spec_add_functions(old(self).decls(), module_name@, functions@),
            decreases functions@.len() - j,
        {
            let f = &functions[j];
            let qualified = qualified_member_name(module_name, f.name.as_str());
            proof {
                assert(functions@.skip(j as int)[0] == functions@[j as int]);
                assert(functions@.skip(j as int).drop_first() =~= functions@.skip(j + 1));
            }
            if self.functions.contains_key(qualified.as_str()) {
                assert(self.decls().functions.contains_key(qualified@));
                assert(target == Err::<DeclView, ErrorView>(ErrorView::DuplicateFunction(qualified@)));
                return Err(ScriptLangError::DuplicateFunction(qualified));
            }
            let ghost before = self.decls();
            let ghost old_functions = self.functions;
            let compiled = CompiledFunction {
                param_names: copy_strings(&f.param_names),
                body: lower_resolved_vars_to_runtime_names(f.body.as_str()),
            };
            let ghost cv = (spec_strings(compiled.param_names@), compiled.body@);
            let ghost key = qualified@;
            self.functions.insert(qualified, compiled);
            proof {
                assert forall|k: Seq<char>| #[trigger] spec_function_map(self.functions).dom().contains(k)
                    == before.functions.insert(key, cv).dom().contains(k) by {
                    if k != key {
                        assert(self.functions.spec_get(k) == old_functions.spec_get(k));
                    }
                }
                assert forall|k: Seq<char>| #[trigger] spec_function_map(self.functions).dom().contains(k)
                    implies spec_function_map(self.functions)[k] == before.functions.insert(key, cv)[k] by {
                    if k != key {
                        assert(self.functions.spec_get(k) == old_functions.spec_get(k));
                    }
                }
                assert(spec_function_map(self.functions) =~= before.functions.insert(key, cv));
                assert(self.decls().globals == before.globals);
            }
            j = j + 1;
        }
        Ok(())
    }

    fn add_scripts(&mut self, module_name: &str, scripts: &Vec<SemanticScript>) -> (r: Result<(), ScriptLangError>)
        requires
            old(self).wf(),
        ensures
            final(self).wf(),
            match r {
                Ok(()) => spec_add_scripts(old(self).decls(), module_name@, scripts@) == Ok::<DeclView, ErrorView>(final(self).decls()),
                Err(e) => spec_add_scripts(old(self).decls(), module_name@, scripts@) == Err::<DeclView, ErrorView>(e@),
            },
    {
        let ghost target = spec_add_scripts(self.decls(), module_name@, scripts@);
        let mut j: usize = 0;
        assert(scripts@.skip(0) =~= scripts@);
        while j < scripts.len()
            invariant
                self.wf(),
                j <= scripts@.len(),
                spec_add_scripts(self.decls(), module_name@, scripts@.skip(j as int)) == target,
                target == spec_add_scripts(old(self).decls(), module_name@, scripts@),
            decreases scripts@.len() - j,
        {
            let qualified = qualified_member_name(module_name, scripts[j].name.as_str());
            proof {
                assert(scripts@.skip(j as int)[0] == scripts@[j as int]);
                assert(scripts@.skip(j as int).drop_first() =~= scripts@.skip(j + 1));
            }
            if self.script_refs.contains_key(qualified.as_str()) {
                assert(self.decls().script_refs.contains_key(qualified@));
                assert(target == Err::<DeclView, ErrorView>(ErrorView::DuplicateScript(qualified@)));
                return Err(ScriptLangError::DuplicateScript(qualified));
            }
            let ghost before = self.decls();
            let ghost old_refs = self.script_refs;
            let ghost key = qualified@;
            let id = self.scripts.len();
            self.script_refs.insert(qualified, id);
            self.scripts.push(ScriptDraft::new());
            proof {
                assert forall|k: Seq<char>| #[trigger] spec_ref_map(self.script_refs).dom().contains(k)
                    == before.script_refs.insert(key, before.script_count).dom().contains(k) by {
                    if k != key {
                        assert(self.script_refs.spec_get(k) == old_refs.spec_get(k));
                    }
                }
                assert forall|k: Seq<char>| #[trigger] spec_ref_map(self.script_refs).dom().contains(k)
                    implies spec_ref_map(self.script_refs)[k] == before.script_refs.insert(key, before.script_count)[k] by {
                    if k != key {
                        assert(self.script_refs.spec_get(k) == old_refs.spec_get(k));
                    }
                }
                assert(spec_ref_map(self.script_refs) =~= before.script_refs.insert(key, before.script_count));
                assert(self.decls().globals == before.globals);
            }
            j = j + 1;
        }
        Ok(())
    }

    /// Gathers the globals, functions and script ids of `modules`, module
    /// after module.
    pub fn collect_declarations(&mut self, modules: &Vec<SemanticModule>) -> (r: Result<(), ScriptLangError>)
        requires
            old(self).wf(),
        ensures
            final(self).wf(),
            match r {
                Ok(()) => spec_collect(old(self).decls(), modules@) == Ok::<DeclView, ErrorView>(final(self).decls()),
                Err(e) => spec_collect(old(self).decls(), modules@) == Err::<DeclView, ErrorView>(e@),
            },
    {
        let ghost target = spec_collect(self.decls(), modules@);
        let mut i: usize = 0;
        assert(modules@.skip(0) =~= modules@);
        while i < modules.len()
            invariant
                self.wf(),
                i <= modules@.len(),
                spec_collect(self.decls(), modules@.skip(i as int)) == target,
                target == spec_collect(old(self).decls(), modules@),
            decreases modules@.len() - i,
        {
            let m = &modules[i];
            proof {
                assert(modules@.skip(i as int)[0] == modules@[i as int]);
                assert(modules@.skip(i as int).drop_first() =~= modules@.skip(i + 1));
            }
            self.add_vars(m.name.as_str(), &m.vars);
            match self.add_functions(m.name.as_str(), &m.functions) {
                Ok(()) => {},
                Err(e) => {
                    return Err(e);
                },
            }
            match self.add_scripts(m.name.as_str(), &m.scripts) {
                Ok(()) => {},
                Err(e) => {
                    return Err(e);
                },
            }
            i = i + 1;
        }
        Ok(())
    }
}

/// The scripts of the modules, in program order.
pub open spec fn spec_flat_scripts(ms: Seq<SemanticModule>) -> Seq<SemanticScript>
    decreases ms.len(),
{
    if ms.len() == 0 {
        Seq::empty()
    } else {
        ms[0].scripts@ + spec_flat_scripts(ms.drop_first())
    }
}

/// A script lowered on its own: its instructions (ending the run where its
/// body does not) and its local slots.
pub open spec fn spec_lowered_script(s: SemanticScript) -> Result<(Seq<InstrView>, Seq<Seq<char>>), ErrorView> {
    match spec_lower_block(spec_stmt_views(s.body@), 0, None, Seq::empty()) {
        Ok((code, locals)) => Ok((code + spec_end_after(code), locals)),
        Err(e) => Err(e),
    }
}

/// The error of the first script that does not lower.
pub open spec fn spec_first_lower_error(ss: Seq<SemanticScript>) -> Option<ErrorView>
    decreases ss.len(),
{
    if ss.len() == 0 {
        None
    } else {
        match spec_lowered_script(ss[0]) {
            Err(e) => Some(e),
            Ok(_) => spec_first_lower_error(ss.drop_first()),
        }
    }
}

/// Every script of the modules lowers within the machine's index range.
pub open spec fn spec_scripts_fit(ms: Seq<SemanticModule>) -> bool {
    forall|k: int| 0 <= k < spec_flat_scripts(ms).len() ==> spec_block_len(spec_stmt_views(#[trigger] spec_flat_scripts(ms)[k].body@)) < usize::MAX
}

pub proof fn lemma_add_functions_count(st: DeclView, m: Seq<char>, fs: Seq<SemanticFunction>)
    ensures
        spec_add_functions(st, m, fs) matches Ok(d) ==> d.script_count == st.script_count,
    decreases fs.len(),
{
    if fs.len() > 0 {
        let q = spec_qualified_member_name(m, fs[0].name@);
        if !st.functions.contains_key(q) {
            lemma_add_functions_count(
                DeclView {
                    globals: st.globals,
                    functions: st.functions.insert(q, (spec_strings(fs[0].param_names@), spec_lower_from(fs[0].body@, 0))),
                    script_refs: st.script_refs,
                    script_count: st.script_count,
                },
                m,
                fs.drop_first(),
            );
        }
    }
}

pub proof fn lemma_add_scripts_count(st: DeclView, m: Seq<char>, ss: Seq<SemanticScript>)
    ensures
        spec_add_scripts(st, m, ss) matches Ok(d) ==> d.script_count == st.script_count + ss.len(),
    decreases ss.len(),
{
    if ss.len() > 0 {
        let q = spec_qualified_member_name(m, ss[0].name@);
        if !st.script_refs.contains_key(q) {
            lemma_add_scripts_count(
                DeclView {
                    globals: st.globals,
                    functions: st.functions,
                    script_refs: st.script_refs.insert(q, st.script_count),
                    script_count: st.script_count + 1,
                },
                m,
                ss.drop_first(),
            );
        }
    }
}

/// Each script declared gets one id: after the declarations of `ms` there
/// are as many scripts as `ms` has.
pub proof fn lemma_collect_count(st: DeclView, ms: Seq<SemanticModule>)
    ensures
        spec_collect(st, ms) matches Ok(d) ==> d.script_count == st.script_count + spec_flat_scripts(ms).len(),
    decreases ms.len(),
{
    if ms.len() > 0 {
        let m = ms[0];
        let s1 = spec_add_vars(st, m.name@, m.vars@);
        lemma_add_functions_count(s1, m.name@, m.functions@);
        if let Ok(s2) = spec_add_functions(s1, m.name@, m.functions@) {
            lemma_add_scripts_count(s2, m.name@, m.scripts@);
            if let Ok(s3) = spec_add_scripts(s2, m.name@, m.scripts@) {
                lemma_collect_count(s3, ms.drop_first());
            }
        }
    }
}

pub proof fn lemma_first_error_skips_lowered(done: Seq<SemanticScript>, rest: Seq<SemanticScript>)
    requires
        forall|k: int| 0 <= k < done.len() ==> #[trigger] spec_lowered_script(done[k]) is Ok,
    ensures
        spec_first_lower_error(done + rest) == spec_first_lower_error(rest),
    decreases done.len(),
{
    if done.len() > 0 {
        assert((done + rest).drop_first() =~= done.drop_first() + rest);
        assert((done + rest)[0] == done[0]);
        assert forall|k: int| 0 <= k < done.drop_first().len() implies #[trigger] spec_lowered_script(done.drop_first()[k]) is Ok by {
            assert(done.drop_first()[k] == done[k + 1]);
        }
        lemma_first_error_skips_lowered(done.drop_first(), rest);
    } else {
        assert(done + rest =~= rest);
    }
}

/// A script draft as its lowered result.
pub open spec fn spec_draft_result(d: ScriptDraft) -> (Seq<InstrView>, Seq<Seq<char>>) {
    (spec_instr_views(d.instructions@), d.locals())
}

impl ProgramAssembler {
    /// Lowers every script of `modules` into its own draft, in program order.
    pub fn lower_modules(&mut self, modules: &Vec<SemanticModule>) -> (r: Result<(), ScriptLangError>)
        requires
            old(self).wf(),
            old(self).scripts@.len() == spec_flat_scripts(modules@).len(),
            spec_scripts_fit(modules@),
        ensures
            final(self).wf(),
            final(self).decls() == old(self).decls(),
            final(self).functions == old(self).functions,
            final(self).script_refs == old(self).script_refs,
            final(self).globals@ == old(self).globals@,
            match r {
                Ok(()) => spec_first_lower_error(spec_flat_scripts(modules@)) is None && forall|k: int| 0 <= k < final(self).scripts@.len()
                    ==> spec_lowered_script(spec_flat_scripts(modules@)[k]) == Ok::<(Seq<InstrView>, Seq<Seq<char>>), ErrorView>(spec_draft_result(#[trigger] final(self).scripts@[k])),
                Err(e) => spec_first_lower_error(spec_flat_scripts(modules@)) == Some(e@),
            },
    {
        let ghost all = spec_flat_scripts(modules@);
        let mut lowered: Vec<ScriptDraft> = Vec::new();
        let ghost mut done: Seq<SemanticScript> = Seq::empty();
        let mut i: usize = 0;
        assert(modules@.skip(0) =~= modules@);
        assert(done + spec_flat_scripts(modules@.skip(0)) =~= all);
        while i < modules.len()
            invariant
                *self == *old(self),
                old(self).wf(),
                i <= modules@.len(),
                all == spec_flat_scripts(modules@),
                spec_scripts_fit(modules@),
                done + spec_flat_scripts(modules@.skip(i as int)) == all,
                lowered@.len() == done.len(),
                forall|k: int| 0 <= k < done.len() ==> spec_lowered_script(done[k]) == Ok::<(Seq<InstrView>, Seq<Seq<char>>), ErrorView>(
                    spec_draft_result(#[trigger] lowered@[k]),
                ),
            decreases modules@.len() - i,
        {
            let scripts = &modules[i].scripts;
            proof {
                assert(modules@.skip(i as int)[0] == modules@[i as int]);
                assert(modules@.skip(i as int).drop_first() =~= modules@.skip(i + 1));
                assert(scripts@.skip(0) =~= scripts@);
            }
            let mut j: usize = 0;
            while j < scripts.len()
                invariant
                    *self == *old(self),
                    old(self).wf(),
                    i < modules@.len(),
                    scripts@ == modules@[i as int].scripts@,
                    j <= scripts@.len(),
                    all == spec_flat_scripts(modules@),
                    spec_scripts_fit(modules@),
                    done + scripts@.skip(j as int) + spec_flat_scripts(modules@.skip(i + 1)) == all,
                    lowered@.len() == done.len(),
                    forall|k: int| 0 <= k < done.len() ==> spec_lowered_script(done[k]) == Ok::<(Seq<InstrView>, Seq<Seq<char>>), ErrorView>(
                        spec_draft_result(#[trigger] lowered@[k]),
                    ),
                decreases scripts@.len() - j,
            {
                let script = &scripts[j];
                let ghost k = done.len() as int;
                proof {
                    assert(scripts@.skip(j as int) =~= seq![scripts@[j as int]] + scripts@.skip(j + 1));
                    assert(all[k] == scripts@[j as int]) by {
                        assert((done + scripts@.skip(j as int) + spec_flat_scripts(modules@.skip(i + 1)))[k] == scripts@[j as int]);
                    }
                    assert(spec_block_len(spec_stmt_views(all[k].body@)) < usize::MAX);
                }
                let mut draft = ScriptDraft::new();
                assert(draft.locals() =~= Seq::<Seq<char>>::empty());
                let res = lower_script(&mut draft, script);
                proof {
                    assert(spec_instr_views(Seq::<Instruction>::empty()) =~= Seq::<InstrView>::empty());
                }
                match res {
                    Ok(()) => {},
                    Err(e) => {
                        proof {
                            assert forall|q: int| 0 <= q < done.len() implies #[trigger] spec_lowered_script(done[q]) is Ok by {
                                assert(spec_lowered_script(done[q]) == Ok::<(Seq<InstrView>, Seq<Seq<char>>), ErrorView>(spec_draft_result(lowered@[q])));
                            }
                            lemma_first_error_skips_lowered(done, scripts@.skip(j as int) + spec_flat_scripts(modules@.skip(i + 1)));
                            assert(done + (scripts@.skip(j as int) + spec_flat_scripts(modules@.skip(i + 1))) =~= all);
                            assert((scripts@.skip(j as int) + spec_flat_scripts(modules@.skip(i + 1)))[0] == scripts@[j as int]);
                        }
                        return Err(e);
                    },
                }
                proof {
                    let code = match spec_lower_block(spec_stmt_views(script.body@), 0, None, Seq::empty()) {
                        Ok((c, _)) => c,
                        Err(_) => Seq::empty(),
                    };
                    assert(Seq::<InstrView>::empty() + code =~= code);
                }
                lowered.push(draft);
                proof {
                    done = done.push(scripts@[j as int]);
                    assert(done + scripts@.skip(j + 1) + spec_flat_scripts(modules@.skip(i + 1)) =~= all);
                }
                j = j + 1;
            }
            proof {
                assert(scripts@.skip(scripts@.len() as int) =~= Seq::<SemanticScript>::empty());
                assert(done + spec_flat_scripts(modules@.skip(i + 1)) =~= all);
            }
            i = i + 1;
        }
        proof {
            assert(modules@.skip(modules@.len() as int) =~= Seq::<SemanticModule>::empty());
            assert(done =~= all);
            assert forall|q: int| 0 <= q < done.len() implies #[trigger] spec_lowered_script(done[q]) is Ok by {
                assert(spec_lowered_script(done[q]) == Ok::<(Seq<InstrView>, Seq<Seq<char>>), ErrorView>(spec_draft_result(lowered@[q])));
            }
            lemma_first_error_skips_lowered(done, Seq::empty());
            assert(done + Seq::<SemanticScript>::empty() =~= done);
        }
        self.scripts = lowered;
        Ok(())
    }
}

/// The boot script: each global's initializer evaluated in slot order, then
/// a jump to the entry script.
pub open spec fn spec_boot_code(globals: Seq<(Seq<char>, Seq<char>)>, entry: nat) -> Seq<InstrView> {
    Seq::new(
        globals.len(),
        |i: int| InstrView::EvalGlobalInit { global_id: i as nat, expr: spec_lower_from(globals[i].1, 0) },
    ).push(InstrView::JumpScript { script_id: entry })
}

impl ProgramAssembler {
    /// The instructions that initialize the globals and then start the run
    /// at `default_entry_script_id`.
    pub fn build_boot_script(&self, default_entry_script_id: usize) -> (r: Vec<Instruction>)
        requires
            self.wf(),
        ensures
            spec_instr_views(r@) == spec_boot_code(self.decls().globals, default_entry_script_id as nat),
    {
        let mut instructions: Vec<Instruction> = Vec::new();
        let mut i: usize = 0;
        while i < self.globals.len()
            invariant
                self.wf(),
                i <= self.globals@.len(),
                instructions@.len() == i,
                forall|k: int| 0 <= k < i ==> crate::lower::spec_instr_view(#[trigger] instructions@[k]) == (InstrView::EvalGlobalInit {
                    global_id: k as nat,
                    expr: spec_lower_from(self.globals@[k].initializer@, 0),
                }),
            decreases self.globals@.len() - i,
        {
            let g = &self.globals[i];
            instructions.push(Instruction::EvalGlobalInit {
                global_id: g.global.global_id,
                expr: lower_resolved_vars_to_runtime_names(g.initializer.as_str()),
            });
            i = i + 1;
        }
        instructions.push(Instruction::JumpScript { script_id: default_entry_script_id });
        let ghost expected = spec_boot_code(self.decls().globals, default_entry_script_id as nat);
        assert forall|k: int| 0 <= k < expected.len() implies #[trigger] spec_instr_views(instructions@)[k] == expected[k] by {
            if k < self.globals@.len() {
                assert(crate::lower::spec_instr_view(instructions@[k]) == (InstrView::EvalGlobalInit {
                    global_id: k as nat,
                    expr: spec_lower_from(self.globals@[k].initializer@, 0),
                }));
            }
        }
        assert(spec_instr_views(instructions@) =~= expected);
        instructions
    }
}

/// Why a program does not assemble with `entry` as its entry script, if it
/// does not: a declaration error, else the first script that does not
/// lower, else a missing entry script.
pub open spec fn spec_assemble_error(ms: Seq<SemanticModule>, entry: Seq<char>) -> Option<ErrorView> {
    match spec_collect(spec_empty_decls(), ms) {
        Err(e) => Some(e),
        Ok(d) => match spec_first_lower_error(spec_flat_scripts(ms)) {
            Some(e) => Some(e),
            None => if d.script_refs.contains_key(entry) {
                None
            } else if d.script_count == 0 {
                Some(ErrorView::NoScripts)
            } else {
                Some(ErrorView::DefaultEntryMissing(entry))
            },
        },
    }
}

/// The artifact a program assembles to: the declarations of the modules,
/// each script lowered under its id, and the boot script last.
pub open spec fn spec_is_artifact(a: CompiledArtifact, ms: Seq<SemanticModule>, entry: Seq<char>) -> bool {
    spec_collect(spec_empty_decls(), ms) matches Ok(d) && {
        let flat = spec_flat_scripts(ms);
        &&& a.default_entry_script_id == d.script_refs[entry]
        &&& a.boot_script_id == flat.len()
        &&& spec_function_map(a.functions) == d.functions
        &&& spec_ref_map(a.script_refs) == d.script_refs
        &&& a.globals@.len() == d.globals.len()
        &&& forall|i: int| 0 <= i < a.globals@.len() ==> (#[trigger] a.globals@[i]).global_id == i && a.globals@[i].runtime_name@ == d.globals[i].0
        &&& a.scripts@.len() == flat.len() + 1
        &&& forall|k: int| 0 <= k < flat.len() ==> (#[trigger] a.scripts@[k]).script_id == k
            && spec_lowered_script(flat[k]) == Ok::<(Seq<InstrView>, Seq<Seq<char>>), ErrorView>((spec_instr_views(a.scripts@[k].instructions@), spec_strings(a.scripts@[k].local_names@)))
        &&& a.scripts@[flat.len() as int].script_id == flat.len()
        &&& a.scripts@[flat.len() as int].local_names@.len() == 0
        &&& spec_instr_views(a.scripts@[flat.len() as int].instructions@) == spec_boot_code(d.globals, a.default_entry_script_id as nat)
    }
}

/// Assembles an analyzed program, starting runs at the script
/// `options.default_entry_script_ref`.
pub fn assemble_artifact_with_options(program: &SemanticProgram, options: &CompileOptions) -> (r: Result<CompiledArtifact, ScriptLangError>)
    requires
        spec_scripts_fit(program.modules@),
    ensures
        r is Ok <==> spec_assemble_error(program.modules@, options.default_entry_script_ref@) is None,
        r matches Ok(a) ==> spec_is_artifact(a, program.modules@, options.default_entry_script_ref@),
        r matches Err(e) ==> spec_assemble_error(program.modules@, options.default_entry_script_ref@) == Some(e@),
{
    let mut assembler = ProgramAssembler::new();
    match assembler.collect_declarations(&program.modules) {
        Ok(()) => {},
        Err(e) => {
            return Err(e);
        },
    }
    let ghost d = assembler.decls();
    proof {
        lemma_collect_count(spec_empty_decls(), program.modules@);
    }
    match assembler.lower_modules(&program.modules) {
        Ok(()) => {},
        Err(e) => {
            return Err(e);
        },
    }
    let entry = options.default_entry_script_ref.as_str();
    let default_entry_script_id: usize = match assembler.script_refs.get(entry) {
        Some(id) => *id,
        None => {
            proof {
                assert(!d.script_refs.contains_key(entry@));
            }
            if assembler.scripts.len() == 0 {
                return Err(ScriptLangError::NoScripts);
            }
            return Err(ScriptLangError::DefaultEntryMissing(string_from_chars(&chars_of(entry))));
        },
    };
    let boot_script_id = assembler.scripts.len();
    let boot = assembler.build_boot_script(default_entry_script_id);
    let ProgramAssembler { functions, scripts: drafts, script_refs, globals: decls } = assembler;
    let ghost all_drafts = drafts@;
    let ghost flat = spec_flat_scripts(program.modules@);
    let mut drafts = drafts;
    let mut scripts: Vec<CompiledScript> = Vec::new();
    while drafts.len() > 0
        invariant
            scripts@.len() + drafts@.len() == all_drafts.len(),
            drafts@ == all_drafts.skip(scripts@.len() as int),
            forall|k: int| 0 <= k < scripts@.len() ==> (#[trigger] scripts@[k]).script_id == k
                && spec_instr_views(scripts@[k].instructions@) == spec_instr_views(all_drafts[k].instructions@)
                && spec_strings(scripts@[k].local_names@) == all_drafts[k].locals(),
        decreases drafts@.len(),
    {
        let id = scripts.len();
        let draft = drafts.remove(0);
        proof {
            assert(draft == all_drafts[id as int]);
            assert(drafts@ =~= all_drafts.skip(id + 1));
        }
        let ScriptDraft { local_names, local_lookup: _, instructions } = draft;
        scripts.push(CompiledScript { script_id: id, local_names, instructions });
        proof {
            assert(spec_strings(scripts@[id as int].local_names@) =~= all_drafts[id as int].locals());
        }
    }
    let ghost boot_view = spec_instr_views(boot@);
    scripts.push(CompiledScript { script_id: boot_script_id, local_names: Vec::new(), instructions: boot });
    let mut decls = decls;
    let ghost all_decls = decls@;
    let mut globals: Vec<GlobalVar> = Vec::new();
    while decls.len() > 0
        invariant
            globals@.len() + decls@.len() == all_decls.len(),
            decls@ == all_decls.skip(globals@.len() as int),
            forall|k: int| 0 <= k < globals@.len() ==> (#[trigger] globals@[k]) == all_decls[k].global,
        decreases decls@.len(),
    {
        let g = decls.remove(0);
        proof {
            assert(g == all_decls[globals@.len() as int]);
            assert(decls@ =~= all_decls.skip(globals@.len() as int + 1));
        }
        globals.push(g.global);
    }
    let artifact = CompiledArtifact {
        default_entry_script_id,
        boot_script_id,
        functions,
        script_refs,
        scripts,
        globals,
    };
    proof {
        assert(d.script_refs.contains_key(entry@));
        assert(artifact.default_entry_script_id == d.script_refs[entry@]);
        assert forall|i: int| 0 <= i < artifact.globals@.len() implies (#[trigger] artifact.globals@[i]).global_id == i
            && artifact.globals@[i].runtime_name@ == d.globals[i].0 by {
            assert(artifact.globals@[i] == all_decls[i].global);
        }
        assert forall|k: int| 0 <= k < flat.len() implies (#[trigger] artifact.scripts@[k]).script_id == k
            && spec_lowered_script(flat[k]) == Ok::<(Seq<InstrView>, Seq<Seq<char>>), ErrorView>((spec_instr_views(artifact.scripts@[k].instructions@), spec_strings(artifact.scripts@[k].local_names@))) by {
            assert(artifact.scripts@[k] == scripts@[k]);
        }
    }
    Ok(artifact)
}

/// Assembles an analyzed program with the default options: runs start at
/// `main.main`.
pub fn assemble_artifact(program: &SemanticProgram) -> (r: Result<CompiledArtifact, ScriptLangError>)
    requires
        spec_scripts_fit(program.modules@),
    ensures
        r is Ok <==> spec_assemble_error(program.modules@, "main.main"@) is None,
        r matches Ok(a) ==> spec_is_artifact(a, program.modules@, "main.main"@),
        r matches Err(e) ==> spec_assemble_error(program.modules@, "main.main"@) == Some(e@),
{
    let options = CompileOptions::default();
    assemble_artifact_with_options(program, &options)
}

} // verus!
