//! The state expansion builds: each module's imports, requires, aliases,
//! declarations and children, the program's modules in declaration order,
//! and the macros each module defines.
use vstd::prelude::*;
use crate::collections::NameMap;
use crate::errors::DeclaredType;
use crate::form::{Form, FormItem, copy_form, spec_form_deep};
use crate::macros::MacroParamType;
use crate::scope::{LocalScope, ModuleExports, ModuleMembers};
use crate::collections::NameSet;
use crate::text::{chars_of, push_all, string_from_chars};

verus! {

/// Where expansion stands.
#[derive(Clone, Copy, Debug, PartialEq, Eq)]
pub enum CompilePhase {
    Module,
    Script,
    Statement,
}

/// A const declared but not yet evaluated.
#[derive(Debug)]
pub struct PendingConstDecl {
    pub declared_type: DeclaredType,
    pub raw_expr: Option<String>,
}

/// One module as expansion leaves it.
#[derive(Debug)]
pub struct ModuleState {
    pub module_name: Option<String>,
    pub imports: Vec<String>,
    pub requires: Vec<String>,
    pub aliases: NameMap<String>,
    pub child_aliases: NameMap<String>,
    pub const_decls: NameMap<PendingConstDecl>,
    pub exports: ModuleExports,
    pub children: Vec<Form>,
    pub locals: LocalScope,
}

/// A parameter of a macro.
#[derive(Debug)]
pub struct MacroParam {
    pub param_type: MacroParamType,
    pub name: String,
}

/// How a macro without parameters binds its invocation: (attribute, local,
/// whether the attribute is an expression) pairs, and the local the content
/// goes to, with the head its forms must have.
#[derive(Debug)]
pub struct LegacyProtocol {
    pub attributes: Vec<(String, String, bool)>,
    pub content: Option<(String, Option<String>)>,
}

/// A macro a module defines.
#[derive(Debug)]
pub struct MacroDefinition {
    pub module_name: String,
    pub name: String,
    pub params: Option<Vec<MacroParam>>,
    pub legacy_protocol: Option<LegacyProtocol>,
    pub body: Vec<FormItem>,
}

/// The modules of a program by name, the order they were declared in, and
/// the macros of each module by name.
#[derive(Debug)]
pub struct ProgramState {
    pub modules: NameMap<ModuleState>,
    pub module_order: Vec<String>,
    pub module_macros: NameMap<NameMap<MacroDefinition>>,
}

/// The whole expansion state.
#[derive(Debug)]
pub struct ExpandEnv {
    pub phase: Option<CompilePhase>,
    pub source_name: Option<String>,
    pub program: ProgramState,
    pub module: ModuleState,
    pub macro_invocation_counters: NameMap<usize>,
    pub use_caller_module: Option<String>,
}

/// The name `kernel`.
pub open spec fn spec_kernel() -> Seq<char> {
    seq!['k', 'e', 'r', 'n', 'e', 'l']
}

/// Whether a module's state is empty but for its name.
pub open spec fn spec_fresh_module(m: ModuleState) -> bool {
    &&& m.imports@.len() == 0
    &&& m.requires@.len() == 0
    &&& m.aliases.entries@.len() == 0
    &&& m.child_aliases.entries@.len() == 0
    &&& m.const_decls.entries@.len() == 0
    &&& m.children@.len() == 0
    &&& forall|k: Seq<char>| !m.exports.consts.declared.spec_contains(k) && !m.exports.functions.declared.spec_contains(k)
        && !m.exports.scripts.declared.spec_contains(k) && !m.exports.vars.declared.spec_contains(k)
}

impl ModuleState {
    pub open spec fn wf(&self) -> bool {
        &&& self.aliases.wf()
        &&& self.child_aliases.wf()
        &&& self.const_decls.wf()
        &&& self.exports.wf()
        &&& self.locals.names.wf()
    }

    /// A module with nothing declared yet.
    pub fn new(module_name: Option<String>) -> (r: ModuleState)
        ensures
            r.wf(),
            r.module_name == module_name,
            spec_fresh_module(r),
    {
        let exports = ModuleExports {
            consts: ModuleMembers::new(),
            functions: ModuleMembers::new(),
            scripts: ModuleMembers::new(),
            vars: ModuleMembers::new(),
        };
        ModuleState {
            module_name,
            imports: Vec::new(),
            requires: Vec::new(),
            aliases: NameMap::new(),
            child_aliases: NameMap::new(),
            const_decls: NameMap::new(),
            exports,
            children: Vec::new(),
            locals: LocalScope::new(),
        }
    }
}

/// Whether two sets of members hold the same names.
pub open spec fn members_equiv(a: ModuleMembers, b: ModuleMembers) -> bool {
    &&& a.declared.map.entries@ == b.declared.map.entries@
    &&& a.exported.map.entries@ == b.exported.map.entries@
}

/// Whether two module states hold the same names, declarations and forms.
pub open spec fn module_equiv(a: ModuleState, b: ModuleState) -> bool {
    &&& a.module_name == b.module_name
    &&& a.imports@ == b.imports@
    &&& a.requires@ == b.requires@
    &&& a.aliases.entries@ == b.aliases.entries@
    &&& a.child_aliases.entries@ == b.child_aliases.entries@
    &&& a.const_decls.entries@ == b.const_decls.entries@
    &&& members_equiv(a.exports.consts, b.exports.consts)
    &&& members_equiv(a.exports.functions, b.exports.functions)
    &&& members_equiv(a.exports.scripts, b.exports.scripts)
    &&& members_equiv(a.exports.vars, b.exports.vars)
    &&& a.children@.map_values(|f: Form| spec_form_deep(f)) == b.children@.map_values(|f: Form| spec_form_deep(f))
    &&& a.locals.names.map.entries@ == b.locals.names.map.entries@
}

/// A copy of a list of names.
pub fn copy_strings(v: &Vec<String>) -> (r: Vec<String>)
    ensures
        r@ == v@,
{
    let mut out: Vec<String> = Vec::new();
    let mut i: usize = 0;
    while i < v.len()
        invariant
            i <= v@.len(),
            out@ == v@.take(i as int),
        decreases v@.len() - i,
    {
        out.push(v[i].clone());
        assert(v@.take(i + 1) =~= v@.take(i as int).push(v@[i as int]));
        i = i + 1;
    }
    assert(v@.take(v@.len() as int) =~= v@);
    out
}

/// A copy of an optional name.
pub fn copy_opt_string(v: &Option<String>) -> (r: Option<String>)
    ensures
        r == *v,
{
    match v {
        Some(s) => Some(s.clone()),
        None => None,
    }
}

/// A copy of a map from names to names.
pub fn copy_string_map(m: &NameMap<String>) -> (r: NameMap<String>)
    ensures
        r.entries@ == m.entries@,
{
    let mut out: Vec<(String, String)> = Vec::new();
    let mut i: usize = 0;
    while i < m.entries.len()
        invariant
            i <= m.entries@.len(),
            out@ == m.entries@.take(i as int),
        decreases m.entries@.len() - i,
    {
        let k = m.entries[i].0.clone();
        let v = m.entries[i].1.clone();
        out.push((k, v));
        assert(m.entries@.take(i + 1) =~= m.entries@.take(i as int).push(m.entries@[i as int]));
        i = i + 1;
    }
    assert(m.entries@.take(m.entries@.len() as int) =~= m.entries@);
    NameMap { entries: out }
}

/// A copy of a set of names.
pub fn copy_name_set(s: &NameSet) -> (r: NameSet)
    ensures
        r.map.entries@ == s.map.entries@,
{
    let mut out: Vec<(String, ())> = Vec::new();
    let mut i: usize = 0;
    while i < s.map.entries.len()
        invariant
            i <= s.map.entries@.len(),
            out@ == s.map.entries@.take(i as int),
        decreases s.map.entries@.len() - i,
    {
        let k = s.map.entries[i].0.clone();
        let ghost before = out@;
        let ghost e = s.map.entries@[i as int];
        out.push((k, ()));
        assert(e.1 == ());
        assert(out@ =~= before.push(e));
        assert(s.map.entries@.take(i + 1) =~= s.map.entries@.take(i as int).push(e));
        i = i + 1;
    }
    assert(s.map.entries@.take(s.map.entries@.len() as int) =~= s.map.entries@);
    NameSet { map: NameMap { entries: out } }
}

/// A copy of a module's pending consts.
pub fn copy_const_decls(m: &NameMap<PendingConstDecl>) -> (r: NameMap<PendingConstDecl>)
    ensures
        r.entries@ == m.entries@,
{
    let mut out: Vec<(String, PendingConstDecl)> = Vec::new();
    let mut i: usize = 0;
    while i < m.entries.len()
        invariant
            i <= m.entries@.len(),
            out@ == m.entries@.take(i as int),
        decreases m.entries@.len() - i,
    {
        let k = m.entries[i].0.clone();
        let d = PendingConstDecl {
            declared_type: m.entries[i].1.declared_type,
            raw_expr: copy_opt_string(&m.entries[i].1.raw_expr),
        };
        out.push((k, d));
        assert(m.entries@.take(i + 1) =~= m.entries@.take(i as int).push(m.entries@[i as int]));
        i = i + 1;
    }
    assert(m.entries@.take(m.entries@.len() as int) =~= m.entries@);
    NameMap { entries: out }
}

/// A copy of a module's members.
pub fn copy_members(m: &ModuleMembers) -> (r: ModuleMembers)
    ensures
        members_equiv(r, *m),
{
    ModuleMembers { declared: copy_name_set(&m.declared), exported: copy_name_set(&m.exported) }
}

/// A copy of a list of forms.
pub fn copy_forms(v: &Vec<Form>) -> (r: Vec<Form>)
    ensures
        r@.map_values(|f: Form| spec_form_deep(f)) == v@.map_values(|f: Form| spec_form_deep(f)),
{
    let mut out: Vec<Form> = Vec::new();
    let mut i: usize = 0;
    while i < v.len()
        invariant
            i <= v@.len(),
            out@.len() == i,
            forall|j: int| 0 <= j < i ==> spec_form_deep(#[trigger] out@[j]) == spec_form_deep(v@[j]),
        decreases v@.len() - i,
    {
        let f = copy_form(&v[i]);
        out.push(f);
        i = i + 1;
    }
    assert(out@.map_values(|f: Form| spec_form_deep(f)) =~= v@.map_values(|f: Form| spec_form_deep(f)));
    out
}

impl ModuleState {
    /// A copy of the module state.
    pub fn copy(&self) -> (r: ModuleState)
        ensures
            module_equiv(r, *self),
    {
        ModuleState {
            module_name: copy_opt_string(&self.module_name),
            imports: copy_strings(&self.imports),
            requires: copy_strings(&self.requires),
            aliases: copy_string_map(&self.aliases),
            child_aliases: copy_string_map(&self.child_aliases),
            const_decls: copy_const_decls(&self.const_decls),
            exports: ModuleExports {
                consts: copy_members(&self.exports.consts),
                functions: copy_members(&self.exports.functions),
                scripts: copy_members(&self.exports.scripts),
                vars: copy_members(&self.exports.vars),
            },
            children: copy_forms(&self.children),
            locals: LocalScope { names: copy_name_set(&self.locals.names) },
        }
    }
}

/// The macro `n` of module `m`, if registered.
pub open spec fn spec_macro_at(p: ProgramState, m: Seq<char>, n: Seq<char>) -> Option<MacroDefinition> {
    match p.module_macros.spec_get(m) {
        Some(ms) => ms.spec_get(n),
        None => None,
    }
}

/// The macro `n` of the last of the first `k` modules that has one.
pub open spec fn spec_search_macro(p: ProgramState, imports: Seq<Seq<char>>, k: int, n: Seq<char>) -> Option<MacroDefinition>
    decreases k,
{
    if k <= 0 {
        None
    } else {
        match spec_macro_at(p, imports[k - 1], n) {
            Some(d) => Some(d),
            None => spec_search_macro(p, imports, k - 1, n),
        }
    }
}

/// The macro a name invokes: one of the current module, else of the last
/// module in `requires` that has it, else of `kernel` when neither the
/// current module nor the list is the kernel.
pub open spec fn spec_resolve_macro(p: ProgramState, current: Option<Seq<char>>, required: Seq<Seq<char>>, n: Seq<char>) -> Option<MacroDefinition> {
    let own = match current {
        Some(m) => spec_macro_at(p, m, n),
        None => None,
    };
    if own is Some {
        own
    } else {
        match spec_search_macro(p, required, required.len() as int, n) {
            Some(d) => Some(d),
            None => if current != Some(spec_kernel()) && !required.contains(spec_kernel()) {
                spec_macro_at(p, spec_kernel(), n)
            } else {
                None
            },
        }
    }
}

pub open spec fn spec_names_of(v: Seq<String>) -> Seq<Seq<char>> {
    v.map_values(|s: String| s@)
}

impl ProgramState {
    pub open spec fn wf(&self) -> bool {
        &&& self.modules.wf()
        &&& self.module_macros.wf()
        &&& forall|i: int| 0 <= i < self.module_macros.entries@.len() ==> (#[trigger] self.module_macros.entries@[i]).1.wf()
    }

    /// No modules and no macros.
    pub fn new() -> (r: ProgramState)
        ensures
            r.wf(),
            r.module_order@.len() == 0,
            forall|k: Seq<char>| r.modules.spec_get(k) is None,
            forall|m: Seq<char>, n: Seq<char>| spec_macro_at(r, m, n) is None,
    {
        ProgramState { modules: NameMap::new(), module_order: Vec::new(), module_macros: NameMap::new() }
    }

    /// Registers a macro of its module; a second macro of one name in one
    /// module is refused and nothing changes.
    pub fn register_macro(&mut self, definition: MacroDefinition) -> (r: Result<(), String>)
        requires
            old(self).wf(),
        ensures
            final(self).wf(),
            final(self).modules == old(self).modules,
            final(self).module_order == old(self).module_order,
            r is Ok <==> spec_macro_at(*old(self), definition.module_name@, definition.name@) is None,
            r matches Err(msg) ==> msg@ == "duplicate macro declaration `"@ + definition.module_name@ + "."@
                + definition.name@ + "`"@,
            forall|m: Seq<char>, n: Seq<char>| spec_macro_at(*final(self), m, n) == if r is Ok && m == definition.module_name@
                && n == definition.name@ {
                Some(definition)
            } else {
                spec_macro_at(*old(self), m, n)
            },
    {
        let module_name = definition.module_name.clone();
        let name = definition.name.clone();
        let ghost def = definition;
        let ghost old_macros = self.module_macros;
        let taken = self.module_macros.take(module_name.as_str());
        let had = taken.is_some();
        let mut inner = match taken {
            Some(x) => x,
            None => NameMap::new(),
        };
        proof {
            if had {
                let k = old_macros.spec_index_of(module_name@);
                old_macros.lemma_get_at(k);
                assert(old_macros.entries@[k].1.wf());
            }
        }
        if inner.contains_key(name.as_str()) {
            let mut msg = chars_of("duplicate macro declaration `");
            push_all(&mut msg, &chars_of(module_name.as_str()));
            msg.push('.');
            push_all(&mut msg, &chars_of(name.as_str()));
            msg.push('`');
            self.module_macros.insert(module_name, inner);
            proof {
                reveal_strlit(".");
                reveal_strlit("`");
                assert forall|m: Seq<char>, n: Seq<char>| spec_macro_at(*self, m, n) == spec_macro_at(*old(self), m, n) by {
                    if m != def.module_name@ {
                        assert(self.module_macros.spec_get(m) == old_macros.spec_get(m));
                    }
                }
                self.lemma_inner_wf();
            }
            return Err(string_from_chars(&msg));
        }
        inner.insert(name, definition);
        self.module_macros.insert(module_name, inner);
        proof {
            assert forall|m: Seq<char>, n: Seq<char>| spec_macro_at(*self, m, n) == if m == def.module_name@ && n == def.name@ {
                Some(def)
            } else {
                spec_macro_at(*old(self), m, n)
            } by {
                if m != def.module_name@ {
                    assert(self.module_macros.spec_get(m) == old_macros.spec_get(m));
                }
            }
            self.lemma_inner_wf();
        }
        Ok(())
    }

    proof fn lemma_inner_wf(&self)
        requires
            self.module_macros.wf(),
            forall|k: Seq<char>| #[trigger] self.module_macros.spec_get(k) matches Some(ms) ==> ms.wf(),
        ensures
            forall|i: int| 0 <= i < self.module_macros.entries@.len() ==> (#[trigger] self.module_macros.entries@[i]).1.wf(),
    {
        assert forall|i: int| 0 <= i < self.module_macros.entries@.len() implies (#[trigger] self.module_macros.entries@[i]).1.wf() by {
            self.module_macros.lemma_get_at(i);
            assert(self.module_macros.spec_get(self.module_macros.entries@[i].0@) == Some(self.module_macros.entries@[i].1));
        }
    }

    /// The macro `name` of module `module_name`.
    fn macro_at(&self, module_name: &str, name: &str) -> (r: Option<&MacroDefinition>)
        requires
            self.wf(),
        ensures
            match r {
                Some(d) => spec_macro_at(*self, module_name@, name@) == Some(*d),
                None => spec_macro_at(*self, module_name@, name@) is None,
            },
    {
        match self.module_macros.get(module_name) {
            Some(ms) => {
                proof {
                    let k = self.module_macros.spec_index_of(module_name@);
                    self.module_macros.lemma_get_at(k);
                }
                ms.get(name)
            },
            None => None,
        }
    }

    /// The macro a name invokes from `current_module` with `requires`
    /// visible: the current module's, else the last required module's that
    /// has it, else the kernel's.
    pub fn resolve_macro<'a>(&'a self, current_module: Option<&str>, required: &[String], name: &str) -> (r: Option<&'a MacroDefinition>)
        requires
            self.wf(),
        ensures
            match r {
                Some(d) => spec_resolve_macro(*self, match current_module {
                    Some(m) => Some(m@),
                    None => None,
                }, spec_names_of(required@), name@) == Some(*d),
                None => spec_resolve_macro(*self, match current_module {
                    Some(m) => Some(m@),
                    None => None,
                }, spec_names_of(required@), name@) is None,
            },
    {
        let ghost cur = match current_module {
            Some(m) => Some(m@),
            None => None::<Seq<char>>,
        };
        let ghost reqs = spec_names_of(required@);
        match current_module {
            Some(m) => match self.macro_at(m, name) {
                Some(d) => {
                    return Some(d);
                },
                None => {},
            },
            None => {},
        }
        let mut k = required.len();
        while k > 0
            invariant
                self.wf(),
                k <= required@.len(),
                reqs == spec_names_of(required@),
                (match cur {
                    Some(m) => spec_macro_at(*self, m, name@),
                    None => None,
                }) is None,
                cur == match current_module {
                    Some(m) => Some(m@),
                    None => None::<Seq<char>>,
                },
                spec_search_macro(*self, reqs, k as int, name@) == spec_search_macro(*self, reqs, reqs.len() as int, name@),
            decreases k,
        {
            assert(reqs[k - 1] == required@[k - 1]@);
            match self.macro_at(required[k - 1].as_str(), name) {
                Some(d) => {
                    return Some(d);
                },
                None => {},
            }
            k = k - 1;
        }
        let kernel = string_from_chars(&vec!['k', 'e', 'r', 'n', 'e', 'l']);
        assert(kernel@ =~= spec_kernel());
        let current_is_kernel = match current_module {
            Some(m) => crate::classify::str_is(m, kernel.as_str()),
            None => false,
        };
        let mut requires_kernel = false;
        let mut j: usize = 0;
        while j < required.len()
            invariant
                j <= required@.len(),
                reqs == spec_names_of(required@),
                kernel@ == spec_kernel(),
                requires_kernel <==> exists|x: int| 0 <= x < j && reqs[x] == spec_kernel(),
            decreases required@.len() - j,
        {
            assert(reqs[j as int] == required@[j as int]@);
            if crate::classify::str_is(required[j].as_str(), kernel.as_str()) {
                requires_kernel = true;
            }
            j = j + 1;
        }
        proof {
            if reqs.contains(spec_kernel()) {
                let x = choose|x: int| 0 <= x < reqs.len() && reqs[x] == spec_kernel();
                assert(requires_kernel);
            }
        }
        if !current_is_kernel && !requires_kernel {
            return self.macro_at(kernel.as_str(), name);
        }
        None
    }
}

/// The name a module's macro invocations are counted under.
pub open spec fn spec_counter_key(m: ModuleState) -> Seq<char> {
    match m.module_name {
        Some(n) => n@,
        None => "<unknown>"@,
    }
}

/// Whether a member set declares `k`.
pub open spec fn spec_exports_declare(e: ModuleExports, k: Seq<char>) -> bool {
    e.consts.declared.spec_contains(k) || e.functions.declared.spec_contains(k) || e.scripts.declared.spec_contains(k)
        || e.vars.declared.spec_contains(k)
}

/// Whether the module a `use` expansion injects into already declares `k`:
/// the module being expanded when it is that module, else the finished one.
pub open spec fn spec_caller_exports_has(env: ExpandEnv, k: Seq<char>) -> bool {
    match env.use_caller_module {
        Some(caller) => if env.module.module_name matches Some(m) && m@ == caller@ {
            spec_exports_declare(env.module.exports, k)
        } else {
            match env.program.modules.spec_get(caller@) {
                Some(m) => spec_exports_declare(m.exports, k),
                None => false,
            }
        },
        None => false,
    }
}

impl Default for ExpandEnv {
    /// No phase, no source, no modules, no macros, an unnamed empty module.
    fn default() -> (r: Self)
        ensures
            r.wf(),
            r.phase is None,
            r.source_name is None,
            r.module.module_name is None,
            spec_fresh_module(r.module),
            r.program.module_order@.len() == 0,
            forall|k: Seq<char>| r.program.modules.spec_get(k) is None,
            forall|m: Seq<char>, n: Seq<char>| spec_macro_at(r.program, m, n) is None,
            forall|k: Seq<char>| r.macro_invocation_counters.spec_get(k) is None,
            r.use_caller_module is None,
    {
        ExpandEnv {
            phase: None,
            source_name: None,
            program: ProgramState::new(),
            module: ModuleState::new(None),
            macro_invocation_counters: NameMap::new(),
            use_caller_module: None,
        }
    }
}

impl ExpandEnv {
    pub open spec fn wf(&self) -> bool {
        &&& self.program.wf()
        &&& self.module.wf()
        &&& self.macro_invocation_counters.wf()
    }

    /// The same state in `phase`.
    pub fn with_phase(self, phase: CompilePhase) -> (r: Self)
        ensures
            r == (ExpandEnv { phase: Some(phase), ..self }),
    {
        let mut env = self;
        env.phase = Some(phase);
        env
    }

    /// Starts a module: a name already taken by a finished module is
    /// refused and nothing changes; otherwise the current module becomes an
    /// empty one of that name, in the module phase.
    pub fn begin_module(&mut self, module_name: Option<String>, source_name: Option<String>) -> (r: Result<(), String>)
        requires
            old(self).wf(),
        ensures
            final(self).wf(),
            r is Err <==> (module_name matches Some(n) && old(self).program.modules.spec_contains(n@)),
            r matches Err(msg) ==> *final(self) == *old(self) && (module_name matches Some(n) && msg@
                == "duplicate module declaration `"@ + n@ + "`"@),
            r is Ok ==> {
                &&& final(self).phase == Some(CompilePhase::Module)
                &&& final(self).source_name == source_name
                &&& final(self).module.module_name == module_name
                &&& spec_fresh_module(final(self).module)
                &&& final(self).program == old(self).program
                &&& final(self).macro_invocation_counters == old(self).macro_invocation_counters
                &&& final(self).use_caller_module == old(self).use_caller_module
            },
    {
        match &module_name {
            Some(n) => {
                if self.program.modules.contains_key(n.as_str()) {
                    let mut msg = chars_of("duplicate module declaration `");
                    push_all(&mut msg, &chars_of(n.as_str()));
                    msg.push('`');
                    proof {
                        reveal_strlit("`");
                    }
                    return Err(string_from_chars(&msg));
                }
            },
            None => {},
        }
        self.phase = Some(CompilePhase::Module);
        self.source_name = source_name;
        self.module = ModuleState::new(module_name);
        Ok(())
    }

    /// Files the current module under its name, after the modules filed
    /// before it; an unnamed module is not filed.
    pub fn finish_module(&mut self)
        requires
            old(self).wf(),
        ensures
            final(self).wf(),
            final(self).module == old(self).module,
            final(self).phase == old(self).phase,
            final(self).source_name == old(self).source_name,
            final(self).macro_invocation_counters == old(self).macro_invocation_counters,
            final(self).use_caller_module == old(self).use_caller_module,
            final(self).program.module_macros == old(self).program.module_macros,
            match old(self).module.module_name {
                Some(n) => {
                    &&& final(self).program.module_order@ == old(self).program.module_order@.push(n)
                    &&& final(self).program.modules.spec_get(n@) matches Some(m) && module_equiv(m, old(self).module)
                    &&& forall|k: Seq<char>| k != n@ ==> final(self).program.modules.spec_get(k) == old(self).program.modules.spec_get(k)
                },
                None => final(self).program == old(self).program,
            },
    {
        match &self.module.module_name {
            Some(n) => {
                let name = n.clone();
                let key = n.clone();
                let copy = self.module.copy();
                self.program.module_order.push(name);
                self.program.modules.insert(key, copy);
            },
            None => {},
        }
    }

    /// Sets the current module's children.
    pub fn set_module_children(&mut self, children: Vec<Form>)
        ensures
            *final(self) == (ExpandEnv { module: ModuleState { children, ..old(self).module }, ..*old(self) }),
    {
        self.module.children = children;
    }

    /// Starts a script: script phase, no locals.
    pub fn begin_script(&mut self)
        ensures
            final(self).phase == Some(CompilePhase::Script),
            final(self).module.locals.names.wf(),
            forall|k: Seq<char>| !final(self).module.locals.names.spec_contains(k),
            final(self).module == (ModuleState { locals: final(self).module.locals, ..old(self).module }),
            final(self).program == old(self).program,
            final(self).source_name == old(self).source_name,
            final(self).macro_invocation_counters == old(self).macro_invocation_counters,
            final(self).use_caller_module == old(self).use_caller_module,
    {
        self.phase = Some(CompilePhase::Script);
        self.module.locals = LocalScope::new();
    }

    /// Enters the statement phase.
    pub fn enter_statement(&mut self)
        ensures
            *final(self) == (ExpandEnv { phase: Some(CompilePhase::Statement), ..*old(self) }),
    {
        self.phase = Some(CompilePhase::Statement);
    }

    /// Adds an import to the current module.
    pub fn add_import(&mut self, import_name: String)
        ensures
            final(self).module.imports@ == old(self).module.imports@.push(import_name),
            final(self).module == (ModuleState { imports: final(self).module.imports, ..old(self).module }),
            *final(self) == (ExpandEnv { module: final(self).module, ..*old(self) }),
    {
        self.module.imports.push(import_name);
    }

    /// Adds a require to the current module.
    pub fn add_require(&mut self, require_name: String)
        ensures
            final(self).module.requires@ == old(self).module.requires@.push(require_name),
            final(self).module == (ModuleState { requires: final(self).module.requires, ..old(self).module }),
            *final(self) == (ExpandEnv { module: final(self).module, ..*old(self) }),
    {
        self.module.requires.push(require_name);
    }

    /// Adds an alias to the current module: an alias that already points to
    /// another module is refused, one that points to the same is kept.
    pub fn add_alias(&mut self, alias_name: String, module_name: String) -> (r: Result<(), String>)
        requires
            old(self).wf(),
        ensures
            final(self).wf(),
            r is Err <==> (old(self).module.aliases.spec_get(alias_name@) matches Some(e) && e@ != module_name@),
            r matches Err(msg) ==> *final(self) == *old(self) && (old(self).module.aliases.spec_get(alias_name@) matches Some(e)
                && msg@ == "alias `"@ + alias_name@ + "` already points to `"@ + e@ + "`"@),
            r is Ok && old(self).module.aliases.spec_contains(alias_name@) ==> *final(self) == *old(self),
            r is Ok && !old(self).module.aliases.spec_contains(alias_name@) ==> {
                &&& final(self).module.aliases.spec_get(alias_name@) == Some(module_name)
                &&& forall|k: Seq<char>| k != alias_name@ ==> final(self).module.aliases.spec_get(k) == old(self).module.aliases.spec_get(k)
                &&& final(self).module == (ModuleState { aliases: final(self).module.aliases, ..old(self).module })
                &&& *final(self) == (ExpandEnv { module: final(self).module, ..*old(self) })
            },
    {
        match self.module.aliases.get(alias_name.as_str()) {
            Some(existing) => {
                if crate::classify::str_is(existing.as_str(), module_name.as_str()) {
                    Ok(())
                } else {
                    let mut msg = chars_of("alias `");
                    push_all(&mut msg, &chars_of(alias_name.as_str()));
                    push_all(&mut msg, &chars_of("` already points to `"));
                    push_all(&mut msg, &chars_of(existing.as_str()));
                    msg.push('`');
                    proof {
                        reveal_strlit("`");
                    }
                    Err(string_from_chars(&msg))
                }
            },
            None => {
                self.module.aliases.insert(alias_name, module_name);
                Ok(())
            },
        }
    }

    /// Adds an alias to a submodule: as `add_alias`, and on success records
    /// it among the child aliases too.
    pub fn add_child_alias(&mut self, alias_name: String, module_name: String) -> (r: Result<(), String>)
        requires
            old(self).wf(),
        ensures
            final(self).wf(),
            r is Err <==> (old(self).module.aliases.spec_get(alias_name@) matches Some(e) && e@ != module_name@),
            r matches Err(msg) ==> *final(self) == *old(self) && (old(self).module.aliases.spec_get(alias_name@) matches Some(e)
                && msg@ == "alias `"@ + alias_name@ + "` already points to `"@ + e@ + "`"@),
            r is Ok ==> {
                &&& final(self).module.aliases.spec_get(alias_name@) matches Some(e) && e@ == module_name@
                &&& forall|k: Seq<char>| k != alias_name@ ==> final(self).module.aliases.spec_get(k) == old(self).module.aliases.spec_get(k)
                &&& final(self).module.child_aliases.spec_get(alias_name@) == Some(module_name)
                &&& forall|k: Seq<char>| k != alias_name@ ==> final(self).module.child_aliases.spec_get(k) == old(self).module.child_aliases.spec_get(k)
                &&& final(self).module == (ModuleState {
                    aliases: final(self).module.aliases,
                    child_aliases: final(self).module.child_aliases,
                    ..old(self).module
                })
                &&& *final(self) == (ExpandEnv { module: final(self).module, ..*old(self) })
            },
    {
        let alias_copy = alias_name.clone();
        let module_copy = module_name.clone();
        match self.add_alias(alias_name, module_name) {
            Ok(()) => {},
            Err(msg) => {
                return Err(msg);
            },
        }
        self.module.child_aliases.insert(alias_copy, module_copy);
        Ok(())
    }

    /// Makes `name` local to the current script.
    pub fn add_local(&mut self, name: String)
        requires
            old(self).wf(),
        ensures
            final(self).wf(),
            forall|k: Seq<char>| #[trigger] final(self).module.locals.names.spec_contains(k)
                == (old(self).module.locals.names.spec_contains(k) || k == name@),
            final(self).module == (ModuleState { locals: final(self).module.locals, ..old(self).module }),
            *final(self) == (ExpandEnv { module: final(self).module, ..*old(self) }),
    {
        self.module.locals.insert(name);
    }

    /// Records a const declaration of the current module, replacing one of
    /// the same name.
    pub fn add_const_decl(&mut self, name: String, declared_type: DeclaredType, raw_expr: Option<String>)
        requires
            old(self).wf(),
        ensures
            final(self).wf(),
            final(self).module.const_decls.spec_get(name@) == Some(PendingConstDecl { declared_type, raw_expr }),
            forall|k: Seq<char>| k != name@ ==> final(self).module.const_decls.spec_get(k) == old(self).module.const_decls.spec_get(k),
            final(self).module == (ModuleState { const_decls: final(self).module.const_decls, ..old(self).module }),
            *final(self) == (ExpandEnv { module: final(self).module, ..*old(self) }),
    {
        self.module.const_decls.insert(name, PendingConstDecl { declared_type, raw_expr });
    }

    /// The macro `name` invokes from the current module.
    pub fn resolve_macro(&self, name: &str) -> (r: Option<&MacroDefinition>)
        requires
            self.wf(),
        ensures
            match r {
                Some(d) => spec_resolve_macro(self.program, match self.module.module_name {
                    Some(m) => Some(m@),
                    None => None,
                }, spec_names_of(self.module.requires@), name@) == Some(*d),
                None => spec_resolve_macro(self.program, match self.module.module_name {
                    Some(m) => Some(m@),
                    None => None,
                }, spec_names_of(self.module.requires@), name@) is None,
            },
    {
        let current: Option<&str> = match &self.module.module_name {
            Some(m) => Some(m.as_str()),
            None => None,
        };
        self.program.resolve_macro(current, self.module.requires.as_slice(), name)
    }

    /// The next invocation number of the current module: one more than the
    /// last, counting from one.
    pub fn reserve_macro_invocation_seed(&mut self) -> (seed: usize)
        requires
            old(self).wf(),
            old(self).macro_invocation_counters.spec_get(spec_counter_key(old(self).module)) matches Some(c) ==> c < usize::MAX,
        ensures
            final(self).wf(),
            seed == match old(self).macro_invocation_counters.spec_get(spec_counter_key(old(self).module)) {
                Some(c) => c + 1,
                None => 1,
            },
            final(self).macro_invocation_counters.spec_get(spec_counter_key(old(self).module)) == Some(seed),
            forall|k: Seq<char>| k != spec_counter_key(old(self).module) ==> final(self).macro_invocation_counters.spec_get(k)
                == old(self).macro_invocation_counters.spec_get(k),
            *final(self) == (ExpandEnv { macro_invocation_counters: final(self).macro_invocation_counters, ..*old(self) }),
    {
        let key = match &self.module.module_name {
            Some(n) => n.clone(),
            None => {
                let k = string_from_chars(&chars_of("<unknown>"));
                k
            },
        };
        let next: usize = match self.macro_invocation_counters.get(key.as_str()) {
            Some(c) => *c + 1,
            None => 1,
        };
        self.macro_invocation_counters.insert(key, next);
        next
    }

    /// Remembers the current module as the one a `use` expansion injects
    /// into, unless one is remembered already.
    pub fn push_use_caller(&mut self)
        ensures
            final(self).use_caller_module == match old(self).use_caller_module {
                Some(c) => Some(c),
                None => old(self).module.module_name,
            },
            *final(self) == (ExpandEnv { use_caller_module: final(self).use_caller_module, ..*old(self) }),
    {
        if self.use_caller_module.is_none() {
            self.use_caller_module = copy_opt_string(&self.module.module_name);
        }
    }

    /// Forgets the module a `use` expansion injects into.
    pub fn pop_use_caller(&mut self)
        ensures
            *final(self) == (ExpandEnv { use_caller_module: None, ..*old(self) }),
    {
        self.use_caller_module = None;
    }

    /// Whether the module a `use` expansion injects into already declares
    /// `name` as a const, function, script or var.
    pub fn caller_exports_has(&self, name: &str) -> (b: bool)
        requires
            self.wf(),
            forall|k: Seq<char>| #[trigger] self.program.modules.spec_get(k) matches Some(m) ==> m.wf(),
        ensures
            b == spec_caller_exports_has(*self, name@),
    {
        match &self.use_caller_module {
            Some(caller) => {
                let is_current = match &self.module.module_name {
                    Some(m) => crate::classify::str_is(m.as_str(), caller.as_str()),
                    None => false,
                };
                if is_current {
                    return exports_declare(&self.module.exports, name);
                }
                match self.program.modules.get(caller.as_str()) {
                    Some(m) => exports_declare(&m.exports, name),
                    None => false,
                }
            },
            None => false,
        }
    }
}

/// Whether a module's exports declare `name` in any kind.
fn exports_declare(e: &ModuleExports, name: &str) -> (b: bool)
    requires
        e.wf(),
    ensures
        b == spec_exports_declare(*e, name@),
{
    e.consts.contains_declared(name) || e.functions.contains_declared(name) || e.scripts.contains_declared(name)
        || e.vars.contains_declared(name)
}

} // verus!
