//! Collecting the declarations of modules given as forms: each `<var>` child
//! becomes a global, each `<script>` child a script draft.
use vstd::prelude::*;
use crate::classify::str_is;
use crate::collections::NameMap;
use crate::errors::{ErrorView, FormIssue, FormIssueView, ScriptLangError};
use crate::form::{
    Form, child_forms, error_at, required_attr, spec_attr, spec_child_forms, spec_error_at, spec_text_result,
    spec_trimmed_text_items, trimmed_text_items,
};
use crate::lower::{InstrView, Instruction, spec_instr_views};
use crate::text::{chars_of, push_all, string_from_chars};

verus! {

/// A global declared by a `<var>` child of a module.
pub struct GlobalVar {
    pub global_id: usize,
    pub qualified_name: String,
    pub short_name: String,
    pub initializer: String,
}

/// A script declared by a `<script>` child of a module, before lowering.
pub struct ScriptDraft {
    pub script_ref: String,
    pub module_name: String,
    pub local_names: Vec<String>,
    pub local_lookup: NameMap<usize>,
    pub instructions: Vec<Instruction>,
}

/// The declarations collected so far.
pub struct ArtifactBuilder {
    pub scripts: Vec<ScriptDraft>,
    pub script_refs: NameMap<usize>,
    pub globals: Vec<GlobalVar>,
    pub default_entry_script_id: Option<usize>,
}

/// The mathematical value of a global.
pub struct GlobalView {
    pub global_id: nat,
    pub qualified_name: Seq<char>,
    pub short_name: Seq<char>,
    pub initializer: Seq<char>,
}

/// The mathematical value of a script draft.
pub struct DraftView {
    pub script_ref: Seq<char>,
    pub module_name: Seq<char>,
    pub local_names: Seq<Seq<char>>,
    pub local_lookup: Seq<(Seq<char>, usize)>,
    pub instructions: Seq<InstrView>,
}

/// The mathematical value of a builder.
pub struct BuilderView {
    pub scripts: Seq<DraftView>,
    pub script_refs: Map<Seq<char>, nat>,
    pub globals: Seq<GlobalView>,
    pub default_entry_script_id: Option<nat>,
}

/// A name map as a map.
pub open spec fn spec_map_of<V>(m: NameMap<V>) -> Map<Seq<char>, V> {
    Map::new(|k: Seq<char>| m.spec_get(k) is Some, |k: Seq<char>| m.spec_get(k)->0)
}

/// A name map of names as a map.
pub open spec fn spec_names_of(m: NameMap<String>) -> Map<Seq<char>, Seq<char>> {
    Map::new(|k: Seq<char>| m.spec_get(k) is Some, |k: Seq<char>| m.spec_get(k)->0@)
}

pub open spec fn spec_global_view(g: GlobalVar) -> GlobalView {
    GlobalView {
        global_id: g.global_id as nat,
        qualified_name: g.qualified_name@,
        short_name: g.short_name@,
        initializer: g.initializer@,
    }
}

pub open spec fn spec_draft_view(d: ScriptDraft) -> DraftView {
    DraftView {
        script_ref: d.script_ref@,
        module_name: d.module_name@,
        local_names: d.local_names@.map_values(|s: String| s@),
        local_lookup: d.local_lookup.spec_entries(),
        instructions: spec_instr_views(d.instructions@),
    }
}

impl ArtifactBuilder {
    pub open spec fn wf(&self) -> bool {
        self.script_refs.wf()
    }

    pub open spec fn view(&self) -> BuilderView {
        BuilderView {
            scripts: self.scripts@.map_values(|d: ScriptDraft| spec_draft_view(d)),
            script_refs: Map::new(
                |k: Seq<char>| self.script_refs.spec_get(k) is Some,
                |k: Seq<char>| self.script_refs.spec_get(k)->0 as nat,
            ),
            globals: self.globals@.map_values(|g: GlobalVar| spec_global_view(g)),
            default_entry_script_id: match self.default_entry_script_id {
                Some(id) => Some(id as nat),
                None => None,
            },
        }
    }
}

/// `module.name`.
pub open spec fn spec_member_ref(module: Seq<char>, name: Seq<char>) -> Seq<char> {
    module + seq!['.'] + name
}

/// One child of the module `module`: a `<var>` adds a global (its short
/// name must be new among the globals collected), a `<script>` adds an empty
/// script draft (its reference must be new; the first script collected is
/// the default entry); any other child is an error. `shorts` maps the short
/// names seen to the qualified names.
pub open spec fn spec_collect_child(
    st: BuilderView,
    shorts: Map<Seq<char>, Seq<char>>,
    module: Seq<char>,
    child: Form,
) -> Result<(BuilderView, Map<Seq<char>, Seq<char>>), ErrorView> {
    if child.head@ == "var"@ {
        match spec_attr(child, "name"@) {
            None => Err(spec_error_at(child, FormIssueView::MissingAttr(child.head@, "name"@))),
            Some(n) => {
                let q = spec_member_ref(module, n);
                if shorts.contains_key(n) {
                    Err(ErrorView::AmbiguousGlobalShortName(n, shorts[n], q))
                } else {
                    match spec_trimmed_text_items(child) {
                        Err(e) => Err(e),
                        Ok(init) => Ok(
                            (
                                BuilderView {
                                    globals: st.globals.push(
                                        GlobalView {
                                            global_id: st.globals.len(),
                                            qualified_name: q,
                                            short_name: n,
                                            initializer: init,
                                        },
                                    ),
                                    ..st
                                },
                                shorts.insert(n, q),
                            ),
                        ),
                    }
                }
            },
        }
    } else if child.head@ == "script"@ {
        match spec_attr(child, "name"@) {
            None => Err(spec_error_at(child, FormIssueView::MissingAttr(child.head@, "name"@))),
            Some(n) => {
                let r = spec_member_ref(module, n);
                if st.script_refs.contains_key(r) {
                    Err(ErrorView::DuplicateScript(r))
                } else {
                    let id = st.scripts.len();
                    Ok(
                        (
                            BuilderView {
                                scripts: st.scripts.push(
                                    DraftView {
                                        script_ref: r,
                                        module_name: module,
                                        local_names: Seq::empty(),
                                        local_lookup: Seq::empty(),
                                        instructions: Seq::empty(),
                                    },
                                ),
                                script_refs: st.script_refs.insert(r, id),
                                default_entry_script_id: match st.default_entry_script_id {
                                    Some(d) => Some(d),
                                    None => Some(id),
                                },
                                ..st
                            },
                            shorts,
                        ),
                    )
                }
            },
        }
    } else {
        Err(spec_error_at(child, FormIssueView::UnsupportedModuleChild(child.head@)))
    }
}

/// The children `cs[i..]` of the module `module`, one after another; an
/// error comes with the declarations collected before the failing child.
pub open spec fn spec_collect_children(
    st: BuilderView,
    shorts: Map<Seq<char>, Seq<char>>,
    module: Seq<char>,
    cs: Seq<Form>,
    i: int,
) -> Result<(BuilderView, Map<Seq<char>, Seq<char>>), (BuilderView, ErrorView)>
    decreases cs.len() - i,
{
    if i < 0 || i >= cs.len() {
        Ok((st, shorts))
    } else {
        match spec_collect_child(st, shorts, module, cs[i]) {
            Err(e) => Err((st, e)),
            Ok((st2, sh2)) => spec_collect_children(st2, sh2, module, cs, i + 1),
        }
    }
}

/// The modules `ms[j..]`, one after another: each needs a `name` and
/// children that are forms.
pub open spec fn spec_collect_modules(
    st: BuilderView,
    shorts: Map<Seq<char>, Seq<char>>,
    ms: Seq<Form>,
    j: int,
) -> Result<(BuilderView, Map<Seq<char>, Seq<char>>), (BuilderView, ErrorView)>
    decreases ms.len() - j,
{
    if j < 0 || j >= ms.len() {
        Ok((st, shorts))
    } else {
        match spec_attr(ms[j], "name"@) {
            None => Err((st, spec_error_at(ms[j], FormIssueView::MissingAttr(ms[j].head@, "name"@)))),
            Some(mn) => match spec_child_forms(ms[j]) {
                Err(e) => Err((st, e)),
                Ok(cs) => match spec_collect_children(st, shorts, mn, cs, 0) {
                    Err(x) => Err(x),
                    Ok((st2, sh2)) => spec_collect_modules(st2, sh2, ms, j + 1),
                },
            },
        }
    }
}

fn member_ref(module: &str, name: &str) -> (r: String)
    ensures
        r@ == spec_member_ref(module@, name@),
{
    let mut v = chars_of(module);
    v.push('.');
    let n = chars_of(name);
    push_all(&mut v, &n);
    string_from_chars(&v)
}

impl ArtifactBuilder {
    /// A builder that holds nothing.
    pub fn new() -> (b: Self)
        ensures
            b.wf(),
            b.view().scripts.len() == 0,
            b.view().script_refs == Map::<Seq<char>, nat>::empty(),
            b.view().globals.len() == 0,
            b.view().default_entry_script_id is None,
    {
        let b = ArtifactBuilder {
            scripts: Vec::new(),
            script_refs: NameMap::new(),
            globals: Vec::new(),
            default_entry_script_id: None,
        };
        assert(b.view().script_refs =~= Map::<Seq<char>, nat>::empty());
        b
    }

    /// One child of the module `module_name` (see [`spec_collect_child`]).
    fn collect_child(&mut self, shorts: &mut NameMap<String>, module_name: &str, child: &Form) -> (r: Result<(), ScriptLangError>)
        requires
            old(self).wf(),
            old(shorts).wf(),
        ensures
            final(self).wf(),
            final(shorts).wf(),
            match r {
                Ok(()) => spec_collect_child(old(self).view(), spec_names_of(*old(shorts)), module_name@, *child) == Ok::<(BuilderView, Map<Seq<char>, Seq<char>>), ErrorView>(
                    (final(self).view(), spec_names_of(*final(shorts))),
                ),
                Err(e) => spec_collect_child(old(self).view(), spec_names_of(*old(shorts)), module_name@, *child) == Err::<(BuilderView, Map<Seq<char>, Seq<char>>), ErrorView>(e@)
                    && final(self).view() == old(self).view(),
            },
    {
        proof {
            reveal_strlit("var");
            reveal_strlit("script");
            reveal_strlit("name");
        }
        if str_is(child.head.as_str(), "var") {
            let var_name = match required_attr(child, "name") {
                Ok(n) => n,
                Err(e) => {
                    return Err(e);
                },
            };
            let qualified_name = member_ref(module_name, var_name);
            match shorts.get(var_name) {
                Some(existing) => {
                    return Err(
                        ScriptLangError::AmbiguousGlobalShortName(
                            var_name.to_string(),
                            existing.clone(),
                            qualified_name,
                        ),
                    );
                },
                None => {},
            }
            let initializer = match trimmed_text_items(child) {
                Ok(t) => t,
                Err(e) => {
                    return Err(e);
                },
            };
            let ghost old_shorts = *shorts;
            shorts.insert(var_name.to_string(), qualified_name.clone());
            let g = GlobalVar {
                global_id: self.globals.len(),
                qualified_name,
                short_name: var_name.to_string(),
                initializer,
            };
            self.globals.push(g);
            proof {
                assert(spec_names_of(*shorts) =~= spec_names_of(old_shorts).insert(var_name@, qualified_name@));
                assert(self.view().globals =~= old(self).view().globals.push(spec_global_view(g)));
                assert(self.view().scripts =~= old(self).view().scripts);
                assert(self.view().script_refs =~= old(self).view().script_refs);
                assert(spec_trimmed_text_items(*child) == Ok::<Seq<char>, ErrorView>(g.initializer@));
                assert(!spec_names_of(old_shorts).contains_key(var_name@));
                let st = old(self).view();
                assert(spec_global_view(g) == GlobalView {
                    global_id: st.globals.len(),
                    qualified_name: spec_member_ref(module_name@, var_name@),
                    short_name: var_name@,
                    initializer: g.initializer@,
                });
                assert(self.view() == BuilderView { globals: st.globals.push(spec_global_view(g)), ..st });
            }
            Ok(())
        } else if str_is(child.head.as_str(), "script") {
            let script_name = match required_attr(child, "name") {
                Ok(n) => n,
                Err(e) => {
                    return Err(e);
                },
            };
            let script_ref = member_ref(module_name, script_name);
            if self.script_refs.contains_key(script_ref.as_str()) {
                return Err(ScriptLangError::DuplicateScript(script_ref));
            }
            let script_id = self.scripts.len();
            self.script_refs.insert(script_ref.clone(), script_id);
            if self.default_entry_script_id.is_none() {
                self.default_entry_script_id = Some(script_id);
            }
            let d = ScriptDraft {
                script_ref,
                module_name: module_name.to_string(),
                local_names: Vec::new(),
                local_lookup: NameMap::new(),
                instructions: Vec::new(),
            };
            self.scripts.push(d);
            proof {
                assert(d.local_names@.map_values(|s: String| s@) =~= Seq::<Seq<char>>::empty());
                assert(spec_instr_views(d.instructions@) =~= Seq::<InstrView>::empty());
                assert(self.view().scripts =~= old(self).view().scripts.push(spec_draft_view(d)));
                assert(self.view().script_refs =~= old(self).view().script_refs.insert(d.script_ref@, script_id as nat));
                assert(self.view().globals =~= old(self).view().globals);
                let st = old(self).view();
                assert(!st.script_refs.contains_key(d.script_ref@));
                assert(d.local_lookup.spec_entries() =~= Seq::<(Seq<char>, usize)>::empty());
                assert(spec_draft_view(d) == DraftView {
                    script_ref: spec_member_ref(module_name@, script_name@),
                    module_name: module_name@,
                    local_names: Seq::empty(),
                    local_lookup: Seq::empty(),
                    instructions: Seq::empty(),
                });
                assert(self.view() == BuilderView {
                    scripts: st.scripts.push(spec_draft_view(d)),
                    script_refs: st.script_refs.insert(d.script_ref@, st.scripts.len()),
                    default_entry_script_id: match st.default_entry_script_id {
                        Some(x) => Some(x),
                        None => Some(st.scripts.len()),
                    },
                    ..st
                });
            }
            Ok(())
        } else {
            Err(error_at(child, FormIssue::UnsupportedModuleChild(child.head.clone())))
        }
    }

    /// Collects the globals and scripts that the modules declare, module by
    /// module and child by child (see [`spec_collect_modules`]); on an error
    /// the builder holds what was collected before the failing child.
    pub fn collect_declarations(&mut self, modules: &Vec<Form>) -> (r: Result<(), ScriptLangError>)
        requires
            old(self).wf(),
        ensures
            final(self).wf(),
            match spec_collect_modules(old(self).view(), Map::empty(), modules@, 0) {
                Ok((st, _)) => r is Ok && final(self).view() == st,
                Err((st, e)) => r matches Err(x) && x@ == e && final(self).view() == st,
            },
    {
        let mut shorts: NameMap<String> = NameMap::new();
        proof {
            assert(spec_names_of(shorts) =~= Map::<Seq<char>, Seq<char>>::empty());
            reveal_strlit("name");
        }
        let mut j: usize = 0;
        while j < modules.len()
            invariant
                self.wf(),
                shorts.wf(),
                j <= modules@.len(),
                spec_collect_modules(old(self).view(), Map::empty(), modules@, 0) == spec_collect_modules(
                    self.view(),
                    spec_names_of(shorts),
                    modules@,
                    j as int,
                ),
            decreases modules@.len() - j,
        {
            let module = &modules[j];
            let module_name = match required_attr(module, "name") {
                Ok(n) => n,
                Err(e) => {
                    return Err(e);
                },
            };
            let children = match child_forms(module) {
                Ok(c) => c,
                Err(e) => {
                    return Err(e);
                },
            };
            let ghost cs = spec_child_forms(*module)->Ok_0;
            proof {
                assert(modules@[j as int] == *module);
                assert(spec_attr(modules@[j as int], "name"@) == Some(module_name@));
                assert(spec_child_forms(modules@[j as int]) == Ok::<Seq<Form>, ErrorView>(cs));
            }
            let mut i: usize = 0;
            while i < children.len()
                invariant
                    self.wf(),
                    shorts.wf(),
                    i <= children@.len(),
                    cs.len() == children@.len(),
                    forall|k: int| 0 <= k < children@.len() ==> *children@[k] == cs[k],
                    spec_collect_modules(old(self).view(), Map::empty(), modules@, 0) == match spec_collect_children(
                        self.view(),
                        spec_names_of(shorts),
                        module_name@,
                        cs,
                        i as int,
                    ) {
                        Err(x) => Err(x),
                        Ok((a, b)) => spec_collect_modules(a, b, modules@, j + 1),
                    },
                decreases children@.len() - i,
            {
                let child = children[i];
                let ghost before = self.view();
                let ghost sh_before = spec_names_of(shorts);
                match self.collect_child(&mut shorts, module_name, child) {
                    Ok(()) => {},
                    Err(e) => {
                        proof {
                            assert(spec_collect_children(before, sh_before, module_name@, cs, i as int)
                                == Err::<(BuilderView, Map<Seq<char>, Seq<char>>), (BuilderView, ErrorView)>((before, e@)));
                        }
                        return Err(e);
                    },
                }
                i = i + 1;
            }
            j = j + 1;
        }
        Ok(())
    }
}

/// The boot code of a builder: each global's initializer evaluated, in
/// order, under the global's id, then a jump to the entry script.
pub open spec fn spec_builder_boot(globals: Seq<GlobalView>, entry: nat) -> Seq<InstrView> {
    Seq::new(
        globals.len(),
        |k: int| InstrView::EvalGlobalInit { global_id: globals[k].global_id, expr: globals[k].initializer },
    ).push(InstrView::JumpScript { script_id: entry })
}

impl ArtifactBuilder {
    /// The boot script: evaluates the globals' initializers as written, then
    /// jumps to `default_entry_script_id`.
    pub fn build_boot_script(&self, default_entry_script_id: usize) -> (r: Vec<Instruction>)
        ensures
            spec_instr_views(r@) == spec_builder_boot(self.view().globals, default_entry_script_id as nat),
    {
        let mut instructions: Vec<Instruction> = Vec::new();
        let mut i: usize = 0;
        while i < self.globals.len()
            invariant
                i <= self.globals@.len(),
                instructions@.len() == i,
                forall|k: int| 0 <= k < i ==> crate::lower::spec_instr_view(#[trigger] instructions@[k]) == (InstrView::EvalGlobalInit {
                    global_id: self.globals@[k].global_id as nat,
                    expr: self.globals@[k].initializer@,
                }),
            decreases self.globals@.len() - i,
        {
            let g = &self.globals[i];
            instructions.push(Instruction::EvalGlobalInit { global_id: g.global_id, expr: g.initializer.clone() });
            i = i + 1;
        }
        instructions.push(Instruction::JumpScript { script_id: default_entry_script_id });
        let ghost expected = spec_builder_boot(self.view().globals, default_entry_script_id as nat);
        assert forall|k: int| 0 <= k < expected.len() implies #[trigger] spec_instr_views(instructions@)[k] == expected[k] by {
            if k < self.globals@.len() {
                assert(crate::lower::spec_instr_view(instructions@[k]) == (InstrView::EvalGlobalInit {
                    global_id: self.globals@[k].global_id as nat,
                    expr: self.globals@[k].initializer@,
                }));
            }
        }
        assert(spec_instr_views(instructions@) =~= expected);
        instructions
    }
}

} // verus!
