//! Name resolution across modules: the catalog of module members, the table
//! of evaluated consts, and the resolver that answers what a name in a
//! module refers to.
use vstd::prelude::*;
use crate::collections::{NameMap, compare_names};
use crate::const_eval::{
    ConstLookup, QualifiedConstLookup, QualifiedLookupView, spec_string_result,
};
use crate::const_value::{ConstValue, ConstView};
use crate::errors::{ErrorView, ScriptLangError};
use crate::names::{qualified_member_name, spec_qualified_member_name};
use crate::scope::{ModuleExports, ModuleMembers, ModulePath, ModuleScope, ScopeView, lemma_last_index_of, spec_last_index_of};
use crate::text::{chars_of, push_all, push_range, string_from_chars};

verus! {

/// Which members a search looks at.
#[derive(Clone, Copy, Debug, PartialEq, Eq)]
pub enum MemberSearchKind {
    Var,
    Function,
}

/// What kind of member a reference resolved to.
#[derive(Clone, Copy, Debug, PartialEq, Eq)]
pub enum MemberKind {
    Var,
    Function,
}

/// A member of a module that a name resolved to.
#[derive(Debug, PartialEq, Eq)]
pub struct ResolvedRef {
    pub target_path: String,
    pub name: String,
    pub kind: MemberKind,
}

/// The mathematical value of a resolved reference.
pub struct RefView {
    pub target_path: Seq<char>,
    pub name: Seq<char>,
    pub kind: MemberKind,
}

impl View for ResolvedRef {
    type V = RefView;

    open spec fn view(&self) -> RefView {
        RefView { target_path: self.target_path@, name: self.name@, kind: self.kind }
    }
}

impl ResolvedRef {
    /// A reference to `name` in `target_path`.
    pub fn new(target_path: &str, name: &str, kind: MemberKind) -> (r: ResolvedRef)
        ensures
            r@ == (RefView { target_path: target_path@, name: name@, kind }),
    {
        ResolvedRef {
            target_path: string_from_chars(&chars_of(target_path)),
            name: string_from_chars(&chars_of(name)),
            kind,
        }
    }

    /// `module.name`.
    pub fn qualified_name(&self) -> (r: String)
        ensures
            r@ == spec_qualified_member_name(self.target_path@, self.name@),
    {
        qualified_member_name(self.target_path.as_str(), self.name.as_str())
    }
}

/// The reference results as values.
pub open spec fn spec_ref_result(r: Result<Option<ResolvedRef>, ScriptLangError>) -> Result<Option<RefView>, ErrorView> {
    match r {
        Ok(Some(x)) => Ok(Some(x@)),
        Ok(None) => Ok(None),
        Err(e) => Err(e@),
    }
}

pub open spec fn spec_opt_text_result(r: Result<Option<String>, ScriptLangError>) -> Result<Option<Seq<char>>, ErrorView> {
    match r {
        Ok(Some(x)) => Ok(Some(x@)),
        Ok(None) => Ok(None),
        Err(e) => Err(e@),
    }
}

/// The members of a kind.
pub open spec fn spec_members(e: ModuleExports, kind: MemberSearchKind) -> ModuleMembers {
    match kind {
        MemberSearchKind::Var => e.vars,
        MemberSearchKind::Function => e.functions,
    }
}

/// `prefix rest` qualified: `rest` when it names its module (holds a `.`),
/// else `current.rest`; nothing when the prefix is missing or `rest` empty.
pub open spec fn spec_literal_key(raw: Seq<char>, prefix: char, current: Seq<char>) -> Option<Seq<char>> {
    if raw.len() < 2 || raw[0] != prefix {
        None
    } else if raw.drop_first().contains('.') {
        Some(raw.drop_first())
    } else {
        Some(current + "."@ + raw.drop_first())
    }
}

/// The qualified name a script (`@`) or function (`#`) literal stands for.
pub fn literal_key(raw: &str, prefix: char, current_module: &str) -> (r: Option<String>)
    ensures
        match r {
            Some(q) => spec_literal_key(raw@, prefix, current_module@) == Some(q@),
            None => spec_literal_key(raw@, prefix, current_module@) is None,
        },
{
    let chars = chars_of(raw);
    if chars.len() < 2 || chars[0] != prefix {
        return None;
    }
    let mut rest: Vec<char> = Vec::new();
    push_range(&mut rest, &chars, 1, chars.len());
    assert(rest@ =~= raw@.drop_first());
    let mut i: usize = 0;
    let mut has_dot = false;
    while i < rest.len()
        invariant
            i <= rest@.len(),
            has_dot == exists|j: int| 0 <= j < i && rest@[j] == '.',
        decreases rest@.len() - i,
    {
        if rest[i] == '.' {
            has_dot = true;
        }
        i = i + 1;
    }
    proof {
        reveal_strlit(".");
        if has_dot {
            let j = choose|j: int| 0 <= j < rest@.len() && rest@[j] == '.';
            assert(rest@.contains('.'));
        } else {
            assert(!rest@.contains('.'));
        }
    }
    if has_dot {
        Some(string_from_chars(&rest))
    } else {
        let mut out = chars_of(current_module);
        out.push('.');
        push_all(&mut out, &rest);
        assert(out@ =~= current_module@ + "."@ + raw@.drop_first());
        Some(string_from_chars(&out))
    }
}

/// `text` split at its last `.`: the part before and the part after.
pub fn split_last_dot(text: &str) -> (r: Option<(String, String)>)
    ensures
        match r {
            Some((a, b)) => spec_last_index_of(text@, '.') matches Some(k) && a@ == text@.take(k) && b@
                == text@.skip(k + 1),
            None => spec_last_index_of(text@, '.') is None,
        },
{
    let chars = chars_of(text);
    let mut k = chars.len();
    proof {
        lemma_last_index_of(text@, '.');
    }
    while k > 0 && chars[k - 1] != '.'
        invariant
            k <= chars@.len(),
            chars@ == text@,
            forall|j: int| k <= j < chars@.len() ==> chars@[j] != '.',
        decreases k,
    {
        k = k - 1;
    }
    if k == 0 {
        proof {
            if spec_last_index_of(text@, '.') is Some {
                let x = spec_last_index_of(text@, '.')->0;
                assert(chars@[x] == '.');
            }
        }
        return None;
    }
    let dot = k - 1;
    proof {
        if spec_last_index_of(text@, '.') is None {
            assert(chars@[dot as int] == '.');
        } else {
            let x = spec_last_index_of(text@, '.')->0;
            if x > dot {
                assert(chars@[x] != '.');
            } else if x < dot {
                assert(chars@[dot as int] == '.');
            }
        }
    }
    let mut a: Vec<char> = Vec::new();
    push_range(&mut a, &chars, 0, dot);
    let mut b: Vec<char> = Vec::new();
    push_range(&mut b, &chars, dot + 1, chars.len());
    assert(a@ =~= text@.take(dot as int));
    assert(b@ =~= text@.skip(dot + 1));
    Some((string_from_chars(&a), string_from_chars(&b)))
}

/// The modules of a program, by name, with their members, and the aliases
/// each module gives its nested modules (alias to module).
pub struct ModuleCatalog {
    pub modules: NameMap<ModuleExports>,
    pub child_aliases: NameMap<NameMap<String>>,
}

impl ModuleCatalog {
    pub open spec fn wf(&self) -> bool {
        &&& self.modules.wf()
        &&& forall|i: int| 0 <= i < self.modules.entries@.len() ==> (#[trigger] self.modules.entries@[i]).1.wf()
        &&& self.child_aliases.wf()
        &&& forall|i: int| 0 <= i < self.child_aliases.entries@.len() ==> (#[trigger] self.child_aliases.entries@[i]).1.wf()
    }

    /// A catalog of the modules; each module of `module_order` must have its
    /// members, else the first that lacks them is an error.
    pub fn build(
        modules: NameMap<ModuleExports>,
        child_aliases: NameMap<NameMap<String>>,
        module_order: &Vec<String>,
    ) -> (r: Result<ModuleCatalog, ScriptLangError>)
        requires
            (ModuleCatalog { modules, child_aliases }).wf(),
        ensures
            match r {
                Ok(c) => c.modules == modules && c.child_aliases == child_aliases && c.wf()
                    && forall|i: int| 0 <= i < module_order@.len() ==> modules.spec_contains(#[trigger] module_order@[i]@),
                Err(e) => exists|i: int| 0 <= i < module_order@.len() && !modules.spec_contains(#[trigger] module_order@[i]@)
                    && e@ == ErrorView::MissingModuleState(module_order@[i]@)
                    && forall|j: int| 0 <= j < i ==> modules.spec_contains(module_order@[j]@),
            },
    {
        let mut i: usize = 0;
        while i < module_order.len()
            invariant
                modules.wf(),
                i <= module_order@.len(),
                forall|j: int| 0 <= j < i ==> modules.spec_contains(#[trigger] module_order@[j]@),
            decreases module_order@.len() - i,
        {
            if !modules.contains_key(module_order[i].as_str()) {
                return Err(ScriptLangError::MissingModuleState(module_order[i].clone()));
            }
            i = i + 1;
        }
        Ok(ModuleCatalog { modules, child_aliases })
    }

    pub open spec fn spec_contains(&self, m: Seq<char>) -> bool {
        self.modules.spec_contains(m)
    }

    pub open spec fn spec_exports(&self, m: Seq<char>) -> ModuleExports {
        self.modules.spec_get(m)->0
    }

    /// Whether a qualified name `module.member` names a declared member of
    /// the given kind (scripts when `scripts`, else functions).
    pub open spec fn spec_declares(&self, m: Seq<char>, n: Seq<char>, scripts: bool) -> bool {
        self.spec_contains(m) && if scripts {
            self.spec_exports(m).scripts.declared.spec_contains(n)
        } else {
            self.spec_exports(m).functions.declared.spec_contains(n)
        }
    }

    /// What a script (`scripts`) or function literal resolves to in `current`.
    pub open spec fn spec_resolve_literal(&self, current: Seq<char>, raw: Seq<char>, scripts: bool) -> Result<Seq<char>, ErrorView> {
        let prefix = if scripts { '@' } else { '#' };
        match spec_literal_key(raw, prefix, current) {
            None => Err(if scripts { ErrorView::InvalidScriptLiteralText(raw) } else { ErrorView::InvalidFunctionLiteral(raw) }),
            Some(q) => {
                let k = spec_last_index_of(q, '.')->0;
                if self.spec_declares(q.take(k), q.skip(k + 1), scripts) {
                    Ok(q)
                } else {
                    Err(if scripts { ErrorView::UnknownScript(q) } else { ErrorView::UnknownFunction(q) })
                }
            },
        }
    }

    pub proof fn lemma_exports_wf(&self, m: Seq<char>)
        requires
            self.wf(),
            self.spec_contains(m),
        ensures
            self.spec_exports(m).wf(),
    {
        let i = self.modules.spec_index_of(m);
        assert(self.modules.entries@[i].1.wf());
    }

    /// Whether the program has the module.
    pub fn contains(&self, module_name: &str) -> (b: bool)
        requires
            self.wf(),
        ensures
            b == self.spec_contains(module_name@),
    {
        self.modules.contains_key(module_name)
    }

    /// The members of a module; an error when the program lacks it.
    pub fn exports(&self, module_name: &str) -> (r: Result<&ModuleExports, ScriptLangError>)
        requires
            self.wf(),
        ensures
            match r {
                Ok(e) => self.spec_contains(module_name@) && *e == self.spec_exports(module_name@) && e.wf(),
                Err(err) => !self.spec_contains(module_name@) && err@ == ErrorView::ModuleDoesNotExist(module_name@),
            },
    {
        match self.modules.get(module_name) {
            Some(e) => {
                proof {
                    self.lemma_exports_wf(module_name@);
                }
                Ok(e)
            },
            None => Err(ScriptLangError::ModuleDoesNotExist(string_from_chars(&chars_of(module_name)))),
        }
    }

    fn resolve_literal(&self, current_module: &str, raw: &str, scripts: bool) -> (r: Result<String, ScriptLangError>)
        requires
            self.wf(),
        ensures
            spec_string_result(r) == self.spec_resolve_literal(current_module@, raw@, scripts),
    {
        let prefix = if scripts { '@' } else { '#' };
        let qualified = match literal_key(raw, prefix, current_module) {
            Some(q) => q,
            None => {
                let text = string_from_chars(&chars_of(raw));
                return Err(if scripts { ScriptLangError::InvalidScriptLiteralText(text) } else { ScriptLangError::InvalidFunctionLiteral(text) });
            },
        };
        proof {
            reveal_strlit(".");
            lemma_last_index_of(qualified@, '.');
            if !(raw@.drop_first().contains('.')) {
                assert(qualified@[current_module@.len() as int] == '.');
            } else {
                let j = choose|j: int| 0 <= j < raw@.drop_first().len() && raw@.drop_first()[j] == '.';
                assert(qualified@[j] == '.');
            }
        }
        let (module_name, member_name) = match split_last_dot(qualified.as_str()) {
            Some(parts) => parts,
            None => {
                return Err(if scripts { ScriptLangError::UnknownScript(qualified) } else { ScriptLangError::UnknownFunction(qualified) });
            },
        };
        let known = match self.exports(module_name.as_str()) {
            Ok(e) => if scripts {
                e.scripts.contains_declared(member_name.as_str())
            } else {
                e.functions.contains_declared(member_name.as_str())
            },
            Err(_) => false,
        };
        if !known {
            return Err(if scripts { ScriptLangError::UnknownScript(qualified) } else { ScriptLangError::UnknownFunction(qualified) });
        }
        Ok(qualified)
    }

    /// The qualified script a `@` literal names from `current_module`: an
    /// unqualified name is taken from `current_module`; an error when the
    /// literal is empty or names no declared script.
    pub fn resolve_script_literal(&self, current_module: &str, raw: &str) -> (r: Result<String, ScriptLangError>)
        requires
            self.wf(),
        ensures
            spec_string_result(r) == self.spec_resolve_literal(current_module@, raw@, true),
    {
        self.resolve_literal(current_module, raw, true)
    }

    /// The qualified function a `#` literal names from `current_module`.
    pub fn resolve_function_literal(&self, current_module: &str, raw: &str) -> (r: Result<String, ScriptLangError>)
        requires
            self.wf(),
        ensures
            spec_string_result(r) == self.spec_resolve_literal(current_module@, raw@, false),
    {
        self.resolve_literal(current_module, raw, false)
    }
}

/// Const values by module name and const name.
pub type ConstTable = Map<(Seq<char>, Seq<char>), ConstView>;

/// The values of the evaluated consts: module name to const name to value.
pub struct ConstCatalog {
    pub values: NameMap<NameMap<ConstValue>>,
}

impl ConstCatalog {
    pub open spec fn wf(&self) -> bool {
        &&& self.values.wf()
        &&& forall|i: int| 0 <= i < self.values.entries@.len() ==> (#[trigger] self.values.entries@[i]).1.wf()
    }

    /// The value of `module.name`, if it was evaluated.
    pub open spec fn spec_const(&self, m: Seq<char>, n: Seq<char>) -> Option<ConstValue> {
        match self.values.spec_get(m) {
            Some(env) => env.spec_get(n),
            None => None,
        }
    }

    /// The values as a table.
    pub open spec fn table(&self) -> ConstTable {
        Map::new(
            |k: (Seq<char>, Seq<char>)| self.spec_const(k.0, k.1) is Some,
            |k: (Seq<char>, Seq<char>)| self.spec_const(k.0, k.1)->0@,
        )
    }

    /// The value of a const, when it was evaluated.
    pub fn resolve_const(&self, module_name: &str, const_name: &str) -> (r: Option<ConstValue>)
        requires
            self.wf(),
        ensures
            match r {
                Some(v) => self.spec_const(module_name@, const_name@) matches Some(w) && v@ == w@
                    && self.table().contains_key((module_name@, const_name@)) && self.table()[(module_name@, const_name@)] == v@,
                None => self.spec_const(module_name@, const_name@) is None && !self.table().contains_key((module_name@, const_name@)),
            },
    {
        match self.values.get(module_name) {
            Some(env) => {
                proof {
                    let i = self.values.spec_index_of(module_name@);
                    assert(self.values.entries@[i].1.wf());
                }
                match env.get(const_name) {
                    Some(v) => Some(v.copy_value()),
                    None => None,
                }
            },
            None => None,
        }
    }
}

/// The outcome of looking up a module by a path written in the current
/// module.
pub enum QualifiedExportLookup<'a> {
    NotFound,
    NotAccessible,
    Found { normalized: String, exports: &'a ModuleExports },
}

/// What a resolver reads, as values: the module catalog, the const values
/// and the scope of the module being compiled.
pub struct ResolverView {
    pub modules: ModuleCatalog,
    pub consts: ConstTable,
    pub scope: ScopeView,
}

impl ResolverView {
    /// The last import among the first `n` that exports a member `name` of
    /// the kind; imports the program lacks are passed over.
    pub open spec fn spec_search_imports(self, kind: MemberSearchKind, name: Seq<char>, n: int) -> Option<Seq<char>>
        decreases n,
    {
        if n <= 0 {
            None
        } else {
            let imp = self.scope.imports[n - 1];
            if self.modules.spec_contains(imp) && spec_members(self.modules.spec_exports(imp), kind).exported.spec_contains(name) {
                Some(imp)
            } else {
                self.spec_search_imports(kind, name, n - 1)
            }
        }
    }

    /// A var or function written by its short name: declared in the current
    /// module, else exported by the last import that has it.
    pub open spec fn spec_short_ref(self, kind: MemberSearchKind, name: Seq<char>) -> Result<Option<Seq<char>>, ErrorView> {
        let current = self.scope.current;
        if !self.modules.spec_contains(current) {
            Err(ErrorView::ModuleDoesNotExist(current))
        } else if spec_members(self.modules.spec_exports(current), kind).declared.spec_contains(name) {
            Ok(Some(current))
        } else {
            Ok(self.spec_search_imports(kind, name, self.scope.imports.len() as int))
        }
    }

    /// The module a path written in the current module names, and whether
    /// it is visible: `None` when no such module exists, `Some(false)` when
    /// it is not visible.
    pub open spec fn spec_lookup(self, path: Seq<char>) -> Option<(Seq<char>, bool)> {
        let normalized = self.scope.normalize(path);
        if !self.modules.spec_contains(normalized) {
            None
        } else {
            Some((normalized, self.scope.can_access(normalized)))
        }
    }

    /// A var or function written `path.name`: the module the path names
    /// (itself visible) must export it, or declare it if it is the current
    /// module; `None` when the path names no module.
    pub open spec fn spec_qualified_ref(self, kind: MemberSearchKind, path: Seq<char>, name: Seq<char>) -> Result<Option<Seq<char>>, ErrorView> {
        match self.spec_lookup(path) {
            None => Ok(None),
            Some((normalized, visible)) => if !visible {
                Err(ErrorView::ModuleNotImported(path, self.scope.current))
            } else {
                let members = spec_members(self.modules.spec_exports(normalized), kind);
                if normalized == self.scope.current {
                    if members.declared.spec_contains(name) {
                        Ok(Some(normalized))
                    } else {
                        Ok(None)
                    }
                } else if members.exported.spec_contains(name) {
                    Ok(Some(normalized))
                } else {
                    Err(match kind {
                        MemberSearchKind::Var => ErrorView::ModuleDoesNotExportVar(path, name),
                        MemberSearchKind::Function => ErrorView::ModuleDoesNotExportFunction(path, name),
                    })
                }
            }
        }
    }

}

/// Answers what names written in one module refer to.
pub struct ScopeResolver<'a> {
    modules: &'a ModuleCatalog,
    consts: &'a ConstCatalog,
    scope: &'a ModuleScope,
}

impl<'a> View for ScopeResolver<'a> {
    type V = ResolverView;

    closed spec fn view(&self) -> ResolverView {
        ResolverView { modules: *self.modules, consts: self.consts.table(), scope: self.scope@ }
    }
}

impl<'a> ScopeResolver<'a> {
    #[verifier::type_invariant]
    spec fn inv(self) -> bool {
        self.modules.wf() && self.consts.wf() && self.scope.wf()
    }

    /// A resolver for the module `scope` describes.
    pub fn new(modules: &'a ModuleCatalog, consts: &'a ConstCatalog, scope: &'a ModuleScope) -> (r: Self)
        requires
            modules.wf(),
            consts.wf(),
            scope.wf(),
        ensures
            r@ == (ResolverView { modules: *modules, consts: consts.table(), scope: scope@ }),
    {
        ScopeResolver { modules, consts, scope }
    }

    /// The catalog the resolver reads.
    pub fn modules(&self) -> (r: &'a ModuleCatalog)
        ensures
            *r == self@.modules,
            r.wf(),
    {
        proof {
            use_type_invariant(self);
        }
        self.modules
    }

    /// The import that exports `name` of the kind, searching the imports
    /// from the last.
    fn search_imports_reverse(&self, kind: MemberSearchKind, name: &str) -> (r: Option<String>)
        ensures
            match r {
                Some(m) => self@.spec_search_imports(kind, name@, self@.scope.imports.len() as int) == Some(m@),
                None => self@.spec_search_imports(kind, name@, self@.scope.imports.len() as int) is None,
            },
    {
        proof {
            use_type_invariant(self);
        }
        let imports = self.scope.imports();
        let mut n = imports.len();
        while n > 0
            invariant
                n <= imports@.len(),
                imports@ == self.scope.imports@,
                self.modules.wf(),
                self@.spec_search_imports(kind, name@, n as int) == self@.spec_search_imports(kind, name@, self@.scope.imports.len() as int),
            decreases n,
        {
            let import_path = imports[n - 1].as_str();
            assert(self@.scope.imports[n - 1] == import_path@);
            match self.modules.exports(import_path) {
                Ok(e) => {
                    let found = match kind {
                        MemberSearchKind::Var => e.vars.contains_exported(name),
                        MemberSearchKind::Function => e.functions.contains_exported(name),
                    };
                    if found {
                        return Some(string_from_chars(&chars_of(import_path)));
                    }
                },
                Err(_) => {},
            }
            n = n - 1;
        }
        None
    }

    fn resolve_short(&self, kind: MemberSearchKind, name: &str) -> (r: Result<Option<String>, ScriptLangError>)
        ensures
            spec_opt_text_result(r) == self@.spec_short_ref(kind, name@),
    {
        proof {
            use_type_invariant(self);
        }
        let current = self.scope.current_module();
        let e = match self.modules.exports(current) {
            Ok(e) => e,
            Err(err) => {
                return Err(err);
            },
        };
        let declared = match kind {
            MemberSearchKind::Var => e.vars.contains_declared(name),
            MemberSearchKind::Function => e.functions.contains_declared(name),
        };
        if declared {
            return Ok(Some(string_from_chars(&chars_of(current))));
        }
        Ok(self.search_imports_reverse(kind, name))
    }

    /// Looks up the module a path names.
    pub fn try_lookup_qualified_export(&self, target_path: &str) -> (r: QualifiedExportLookup<'a>)
        ensures
            match r {
                QualifiedExportLookup::NotFound => self@.spec_lookup(target_path@) is None,
                QualifiedExportLookup::NotAccessible => self@.spec_lookup(target_path@) matches Some((_, v)) && !v,
                QualifiedExportLookup::Found { normalized, exports } => self@.spec_lookup(target_path@)
                    == Some((normalized@, true)) && *exports == self@.modules.spec_exports(normalized@)
                    && exports.wf(),
            },
    {
        proof {
            use_type_invariant(self);
        }
        let normalized = self.scope.normalize_module_path(target_path);
        if !self.modules.contains(normalized.as_str()) {
            return QualifiedExportLookup::NotFound;
        }
        if !self.scope.can_access_module(normalized.as_str()) {
            return QualifiedExportLookup::NotAccessible;
        }
        match self.modules.exports(normalized.as_str()) {
            Ok(exports) => QualifiedExportLookup::Found { normalized, exports },
            Err(_) => QualifiedExportLookup::NotFound,
        }
    }

    fn resolve_qualified(&self, kind: MemberSearchKind, target_path: &str, name: &str) -> (r: Result<Option<String>, ScriptLangError>)
        ensures
            spec_opt_text_result(r) == self@.spec_qualified_ref(kind, target_path@, name@),
    {
        proof {
            use_type_invariant(self);
        }
        match self.try_lookup_qualified_export(target_path) {
            QualifiedExportLookup::NotFound => Ok(None),
            QualifiedExportLookup::NotAccessible => Err(
                ScriptLangError::ModuleNotImported(
                    string_from_chars(&chars_of(target_path)),
                    string_from_chars(&chars_of(self.scope.current_module())),
                ),
            ),
            QualifiedExportLookup::Found { normalized, exports } => {
                let is_current = compare_names(normalized.as_str(), self.scope.current_module()) == 0;
                let (declared, exported) = match kind {
                    MemberSearchKind::Var => (exports.vars.contains_declared(name), exports.vars.contains_exported(name)),
                    MemberSearchKind::Function => (exports.functions.contains_declared(name), exports.functions.contains_exported(name)),
                };
                if is_current {
                    if declared {
                        Ok(Some(normalized))
                    } else {
                        Ok(None)
                    }
                } else if exported {
                    Ok(Some(normalized))
                } else {
                    let m = string_from_chars(&chars_of(target_path));
                    let n = string_from_chars(&chars_of(name));
                    Err(match kind {
                        MemberSearchKind::Var => ScriptLangError::ModuleDoesNotExportVar(m, n),
                        MemberSearchKind::Function => ScriptLangError::ModuleDoesNotExportFunction(m, n),
                    })
                }
            },
        }
    }

    /// The var a short name refers to: one the current module declares,
    /// else one the last import that exports it holds.
    pub fn resolve_short_var_ref(&self, name: &str) -> (r: Result<Option<ResolvedRef>, ScriptLangError>)
        ensures
            spec_ref_result(r) == match self@.spec_short_ref(MemberSearchKind::Var, name@) {
                Ok(Some(m)) => Ok(Some(RefView { target_path: m, name: name@, kind: MemberKind::Var })),
                Ok(None) => Ok(None),
                Err(e) => Err::<Option<RefView>, ErrorView>(e),
            },
    {
        match self.resolve_short(MemberSearchKind::Var, name) {
            Ok(Some(m)) => Ok(Some(ResolvedRef::new(m.as_str(), name, MemberKind::Var))),
            Ok(None) => Ok(None),
            Err(e) => Err(e),
        }
    }

    /// The var `target_path.name` refers to.
    pub fn resolve_qualified_var_ref(&self, target_path: &str, name: &str) -> (r: Result<Option<ResolvedRef>, ScriptLangError>)
        ensures
            spec_ref_result(r) == match self@.spec_qualified_ref(MemberSearchKind::Var, target_path@, name@) {
                Ok(Some(m)) => Ok(Some(RefView { target_path: m, name: name@, kind: MemberKind::Var })),
                Ok(None) => Ok(None),
                Err(e) => Err::<Option<RefView>, ErrorView>(e),
            },
    {
        match self.resolve_qualified(MemberSearchKind::Var, target_path, name) {
            Ok(Some(m)) => Ok(Some(ResolvedRef::new(m.as_str(), name, MemberKind::Var))),
            Ok(None) => Ok(None),
            Err(e) => Err(e),
        }
    }

    /// The qualified function a short name refers to.
    pub fn resolve_short_function_ref(&self, name: &str) -> (r: Result<Option<String>, ScriptLangError>)
        ensures
            spec_opt_text_result(r) == match self@.spec_short_ref(MemberSearchKind::Function, name@) {
                Ok(Some(m)) => Ok(Some(spec_qualified_member_name(m, name@))),
                Ok(None) => Ok(None),
                Err(e) => Err::<Option<Seq<char>>, ErrorView>(e),
            },
    {
        match self.resolve_short(MemberSearchKind::Function, name) {
            Ok(Some(m)) => Ok(Some(qualified_member_name(m.as_str(), name))),
            Ok(None) => Ok(None),
            Err(e) => Err(e),
        }
    }

    /// The qualified function `target_path.name` refers to.
    pub fn resolve_qualified_function_ref(&self, target_path: &str, name: &str) -> (r: Result<Option<String>, ScriptLangError>)
        ensures
            spec_opt_text_result(r) == match self@.spec_qualified_ref(MemberSearchKind::Function, target_path@, name@) {
                Ok(Some(m)) => Ok(Some(spec_qualified_member_name(m, name@))),
                Ok(None) => Ok(None),
                Err(e) => Err::<Option<Seq<char>>, ErrorView>(e),
            },
    {
        match self.resolve_qualified(MemberSearchKind::Function, target_path, name) {
            Ok(Some(m)) => Ok(Some(qualified_member_name(m.as_str(), name))),
            Ok(None) => Ok(None),
            Err(e) => Err(e),
        }
    }
}

/// A const written by its short name: the first of the imports, from the
/// last, that exports it and has a value; an import the program lacks is an
/// error.
pub open spec fn spec_short_const_from(r: ResolverView, name: Seq<char>, n: int) -> Result<Option<ConstView>, ErrorView>
    decreases n,
{
    if n <= 0 {
        Ok(None)
    } else {
        let imp = r.scope.imports[n - 1];
        if !r.modules.spec_contains(imp) {
            Err(ErrorView::ModuleDoesNotExist(imp))
        } else if !r.modules.spec_exports(imp).consts.exported.spec_contains(name) {
            spec_short_const_from(r, name, n - 1)
        } else {
            if r.consts.contains_key((imp, name)) {
                Ok(Some(r.consts[(imp, name)]))
            } else {
                spec_short_const_from(r, name, n - 1)
            }
        }
    }
}

/// A const written `path.name`: what the path names, whether it is visible,
/// and whether it has (exports, or declares if current) the const.
pub open spec fn spec_qualified_const_of(r: ResolverView, path: Seq<char>, name: Seq<char>) -> Result<QualifiedLookupView, ErrorView> {
    match r.spec_lookup(path) {
        None => Ok(QualifiedLookupView::NotModulePath),
        Some((normalized, visible)) => if !visible {
            Ok(QualifiedLookupView::HiddenModule)
        } else {
            let consts = r.modules.spec_exports(normalized).consts;
            let is_visible = if normalized == r.scope.current {
                consts.declared.spec_contains(name)
            } else {
                consts.exported.spec_contains(name)
            };
            if !is_visible {
                Ok(QualifiedLookupView::UnknownConst)
            } else {
                if r.consts.contains_key((normalized, name)) {
                    Ok(QualifiedLookupView::Value(r.consts[(normalized, name)]))
                } else {
                    Ok(QualifiedLookupView::UnknownConst)
                }
            }
        },
    }
}

impl ResolverView {
    /// The module being compiled.
    pub open spec fn current_module(self) -> Seq<char> {
        self.scope.current
    }

    /// The value of a const written by its short name.
    pub open spec fn short_const(self, name: Seq<char>) -> Result<Option<ConstView>, ErrorView> {
        spec_short_const_from(self, name, self.scope.imports.len() as int)
    }

    /// What a const written `target_module.name` is.
    pub open spec fn qualified_const(self, target_module: Seq<char>, name: Seq<char>) -> Result<QualifiedLookupView, ErrorView> {
        spec_qualified_const_of(self, target_module, name)
    }

    /// The qualified function a `#` literal names.
    pub open spec fn function_literal(self, raw: Seq<char>) -> Result<Seq<char>, ErrorView> {
        self.modules.spec_resolve_literal(self.scope.current, self.scope.normalize_literal(raw, '#'), false)
    }

    /// The qualified script an `@` literal names.
    pub open spec fn script_literal(self, raw: Seq<char>) -> Result<Seq<char>, ErrorView> {
        self.modules.spec_resolve_literal(self.scope.current, self.scope.normalize_literal(raw, '@'), true)
    }
}

impl<'a> ConstLookup for ScopeResolver<'a> {
    open spec fn spec_current_module(&self) -> Seq<char> {
        self@.current_module()
    }

    open spec fn spec_short_const(&self, name: Seq<char>) -> Result<Option<ConstView>, ErrorView> {
        self@.short_const(name)
    }

    open spec fn spec_qualified_const(&self, target_module: Seq<char>, name: Seq<char>) -> Result<QualifiedLookupView, ErrorView> {
        self@.qualified_const(target_module, name)
    }

    open spec fn spec_function_literal(&self, raw: Seq<char>) -> Result<Seq<char>, ErrorView> {
        self@.function_literal(raw)
    }

    open spec fn spec_script_literal(&self, raw: Seq<char>) -> Result<Seq<char>, ErrorView> {
        self@.script_literal(raw)
    }

    fn current_module(&self) -> (r: &str) {
        self.scope.current_module()
    }

    fn resolve_short_const(&self, name: &str) -> (r: Result<Option<ConstValue>, ScriptLangError>) {
        proof {
            use_type_invariant(self);
        }
        let imports = self.scope.imports();
        let mut n = imports.len();
        while n > 0
            invariant
                n <= imports@.len(),
                imports@ == self.scope.imports@,
                self.modules.wf(),
                self.consts.wf(),
                spec_short_const_from(self@, name@, n as int) == spec_short_const_from(self@, name@, self@.scope.imports.len() as int),
            decreases n,
        {
            let import_path = imports[n - 1].as_str();
            assert(self@.scope.imports[n - 1] == import_path@);
            let e = match self.modules.exports(import_path) {
                Ok(e) => e,
                Err(err) => {
                    return Err(err);
                },
            };
            if e.consts.contains_exported(name) {
                match self.consts.resolve_const(import_path, name) {
                    Some(v) => {
                        return Ok(Some(v));
                    },
                    None => {},
                }
            }
            n = n - 1;
        }
        Ok(None)
    }

    fn resolve_qualified_const(&self, target_module: &str, name: &str) -> (r: Result<QualifiedConstLookup, ScriptLangError>) {
        proof {
            use_type_invariant(self);
        }
        match self.try_lookup_qualified_export(target_module) {
            QualifiedExportLookup::NotFound => Ok(QualifiedConstLookup::NotModulePath),
            QualifiedExportLookup::NotAccessible => Ok(QualifiedConstLookup::HiddenModule),
            QualifiedExportLookup::Found { normalized, exports } => {
                let is_visible = if compare_names(normalized.as_str(), self.scope.current_module()) == 0 {
                    exports.consts.contains_declared(name)
                } else {
                    exports.consts.contains_exported(name)
                };
                if !is_visible {
                    return Ok(QualifiedConstLookup::UnknownConst);
                }
                match self.consts.resolve_const(normalized.as_str(), name) {
                    Some(v) => Ok(QualifiedConstLookup::Value(v)),
                    None => Ok(QualifiedConstLookup::UnknownConst),
                }
            },
        }
    }

    fn resolve_function_literal(&self, raw: &str) -> (r: Result<String, ScriptLangError>) {
        proof {
            use_type_invariant(self);
        }
        let normalized = self.scope.normalize_function_literal(raw);
        self.modules.resolve_function_literal(self.scope.current_module(), normalized.as_str())
    }

    fn resolve_script_literal(&self, raw: &str) -> (r: Result<String, ScriptLangError>) {
        proof {
            use_type_invariant(self);
        }
        let normalized = self.scope.normalize_script_literal(raw);
        self.modules.resolve_script_literal(self.scope.current_module(), normalized.as_str())
    }
}

/// The aliases `catalog` records for the nested modules of `module_name`,
/// as (alias, module) pairs in order.
pub open spec fn spec_child_aliases_of(catalog: ModuleCatalog, module_name: Seq<char>) -> Seq<(Seq<char>, Seq<char>)> {
    match catalog.child_aliases.spec_get(module_name) {
        Some(c) => c.entries@.map_values(|e: (String, String)| (e.0@, e.1@)),
        None => Seq::empty(),
    }
}

/// The name of the module every module imports first.
pub open spec fn spec_kernel_module() -> Seq<char> {
    seq!['k', 'e', 'r', 'n', 'e', 'l']
}

impl ModuleScope {
    /// The scope a module starts with: the kernel module imported (unless it
    /// is the kernel itself, or the program has no kernel), and the aliases
    /// the module gives its nested modules.
    pub fn initial(catalog: &ModuleCatalog, module_name: &str) -> (r: ModuleScope)
        requires
            catalog.wf(),
        ensures
            r.wf(),
            r.spec_current() == module_name@,
            r.spec_imports() == if module_name@ != spec_kernel_module() && catalog.spec_contains(spec_kernel_module()) {
                seq![spec_kernel_module()]
            } else {
                Seq::<Seq<char>>::empty()
            },
            r.aliases.entries@.map_values(|e: (String, ModulePath)| (e.0@, e.1.0@)) == spec_child_aliases_of(*catalog, module_name@),
            r@ == spec_initial_scope(*catalog, module_name@),
    {
        let kernel: Vec<char> = vec!['k', 'e', 'r', 'n', 'e', 'l'];
        assert(kernel@ =~= spec_kernel_module());
        let kernel_name = string_from_chars(&kernel);
        let mut imports: Vec<ModulePath> = Vec::new();
        if compare_names(module_name, kernel_name.as_str()) != 0 && catalog.contains(kernel_name.as_str()) {
            imports.push(ModulePath(kernel_name));
        }
        proof {
            assert(imports@.map_values(|m: ModulePath| m.0@) =~= if module_name@ != spec_kernel_module() && catalog.spec_contains(spec_kernel_module()) {
                seq![spec_kernel_module()]
            } else {
                Seq::<Seq<char>>::empty()
            });
        }
        let mut entries: Vec<(String, ModulePath)> = Vec::new();
        match catalog.child_aliases.get(module_name) {
            Some(c) => {
                proof {
                    let k = catalog.child_aliases.spec_index_of(module_name@);
                    assert(catalog.child_aliases.entries@[k].1.wf());
                }
                let mut i: usize = 0;
                while i < c.entries.len()
                    invariant
                        c.wf(),
                        i <= c.entries@.len(),
                        entries@.len() == i,
                        forall|j: int| 0 <= j < i ==> entries@[j].0@ == #[trigger] c.entries@[j].0@ && entries@[j].1.0@ == c.entries@[j].1@,
                    decreases c.entries@.len() - i,
                {
                    let key = string_from_chars(&chars_of(c.entries[i].0.as_str()));
                    let target = string_from_chars(&chars_of(c.entries[i].1.as_str()));
                    entries.push((key, ModulePath(target)));
                    i = i + 1;
                }
                assert(catalog.child_aliases.spec_get(module_name@) == Some(*c));
                assert(entries@.len() == c.entries@.len());
            },
            None => {},
        }
        let aliases = NameMap { entries };
        proof {
            if let Some(c) = catalog.child_aliases.spec_get(module_name@) {
                assert forall|a: int, b: int| 0 <= a < b < aliases.entries@.len() implies crate::collections::name_lt(
                    #[trigger] aliases.entries@[a].0@,
                    #[trigger] aliases.entries@[b].0@,
                ) by {
                    assert(aliases.entries@[a].0@ == c.entries@[a].0@);
                    assert(aliases.entries@[b].0@ == c.entries@[b].0@);
                }
            }
        }
        let r = ModuleScope::new(string_from_chars(&chars_of(module_name)), imports, aliases);
        proof {
            if let Some(c) = catalog.child_aliases.spec_get(module_name@) {
                assert(r.aliases.entries@.map_values(|e: (String, ModulePath)| (e.0@, e.1.0@)) =~= c.entries@.map_values(|e: (String, String)| (e.0@, e.1@)));
                let k0 = catalog.child_aliases.spec_index_of(module_name@);
                assert(catalog.child_aliases.entries@[k0].1.wf());
                assert forall|k: Seq<char>| #[trigger] r@.aliases.dom().contains(k) == spec_name_map_view(c).dom().contains(k) by {
                    if r.aliases.spec_contains(k) {
                        let i = r.aliases.spec_index_of(k);
                        assert(c.entries@[i].0@ == r.aliases.entries@[i].0@);
                    }
                    if c.spec_contains(k) {
                        let i = c.spec_index_of(k);
                        assert(c.entries@[i].0@ == r.aliases.entries@[i].0@);
                    }
                }
                assert forall|k: Seq<char>| #[trigger] r@.aliases.dom().contains(k) implies r@.aliases[k] == spec_name_map_view(c)[k] by {
                    let i = r.aliases.spec_index_of(k);
                    r.aliases.lemma_get_at(i);
                    assert(c.entries@[i].0@ == r.aliases.entries@[i].0@);
                    assert(c.entries@[i].1@ == r.aliases.entries@[i].1.0@);
                    c.lemma_get_at(i);
                }
                assert(r@.aliases =~= spec_name_map_view(c));
            } else {
                assert(r.aliases.entries@.map_values(|e: (String, ModulePath)| (e.0@, e.1.0@)) =~= Seq::<(Seq<char>, Seq<char>)>::empty());
                assert(r@.aliases =~= Map::<Seq<char>, Seq<char>>::empty());
            }
            assert(r@ == spec_initial_scope(*catalog, module_name@));
        }
        r
    }
}

/// A name map of strings as a mathematical map.
pub open spec fn spec_name_map_view(m: NameMap<String>) -> Map<Seq<char>, Seq<char>> {
    Map::new(|k: Seq<char>| m.spec_contains(k), |k: Seq<char>| m.spec_get(k)->0@)
}

/// The scope a module starts with: the kernel imported (unless the module
/// is the kernel or the program has none) and the aliases of its nested
/// modules.
pub open spec fn spec_initial_scope(catalog: ModuleCatalog, module_name: Seq<char>) -> ScopeView {
    ScopeView {
        current: module_name,
        imports: if module_name != spec_kernel_module() && catalog.spec_contains(spec_kernel_module()) {
            seq![spec_kernel_module()]
        } else {
            Seq::empty()
        },
        aliases: match catalog.child_aliases.spec_get(module_name) {
            Some(c) => spec_name_map_view(c),
            None => Map::empty(),
        },
    }
}

/// An import must name another module of the program.
pub open spec fn spec_validate_import(catalog: ModuleCatalog, form: crate::form::Form, current: Seq<char>, import_name: Seq<char>) -> Result<(), ErrorView> {
    if import_name == current {
        Err(crate::form::spec_error_at(form, crate::errors::FormIssueView::ImportsItself(current)))
    } else if catalog.spec_contains(import_name) {
        Ok(())
    } else {
        Err(crate::form::spec_error_at(form, crate::errors::FormIssueView::ImportedModuleMissing(import_name)))
    }
}

/// Checks an import: not of the module itself, and of a module the program
/// has.
pub fn validate_import_target(catalog: &ModuleCatalog, form: &crate::form::Form, current_module: &str, import_name: &str) -> (r: Result<(), ScriptLangError>)
    requires
        catalog.wf(),
    ensures
        match r {
            Ok(()) => spec_validate_import(*catalog, *form, current_module@, import_name@) == Ok::<(), ErrorView>(()),
            Err(e) => spec_validate_import(*catalog, *form, current_module@, import_name@) == Err::<(), ErrorView>(e@),
        },
{
    if compare_names(import_name, current_module) == 0 {
        return Err(crate::form::error_at(form, crate::errors::FormIssue::ImportsItself(current_module.to_string())));
    }
    if catalog.contains(import_name) {
        Ok(())
    } else {
        Err(crate::form::error_at(form, crate::errors::FormIssue::ImportedModuleMissing(import_name.to_string())))
    }
}

/// The last `.`-separated segment of `name` (all of it when it has no dot).
pub open spec fn spec_last_segment(name: Seq<char>) -> Seq<char> {
    match spec_last_index_of(name, '.') {
        Some(k) => name.skip(k + 1),
        None => name,
    }
}

/// The name an `<alias>` form gives: its `as` attribute, else the last
/// segment of its `name`.
pub open spec fn spec_alias_name(form: crate::form::Form) -> Result<Seq<char>, ErrorView> {
    match crate::form::spec_attr(form, "as"@) {
        Some(a) => if a.len() == 0 {
            Err(crate::form::spec_error_at(form, crate::errors::FormIssueView::AliasAsEmpty))
        } else {
            Ok(a)
        },
        None => match crate::form::spec_attr(form, "name"@) {
            None => Err(crate::form::spec_error_at(form, crate::errors::FormIssueView::MissingAttr(form.head@, "name"@))),
            Some(n) => if spec_last_segment(n).len() == 0 {
                Err(crate::form::spec_error_at(form, crate::errors::FormIssueView::AliasInvalidName))
            } else {
                Ok(spec_last_segment(n))
            },
        },
    }
}

/// The name an `<alias>` form gives its target module.
pub fn alias_name(form: &crate::form::Form) -> (r: Result<String, ScriptLangError>)
    ensures
        match r {
            Ok(n) => spec_alias_name(*form) == Ok::<Seq<char>, ErrorView>(n@),
            Err(e) => spec_alias_name(*form) == Err::<Seq<char>, ErrorView>(e@),
        },
{
    proof {
        reveal_strlit("as");
        reveal_strlit("name");
    }
    if let Some(a) = crate::form::attr(form, "as") {
        if chars_of(a).len() == 0 {
            return Err(crate::form::error_at(form, crate::errors::FormIssue::AliasAsEmpty));
        }
        return Ok(a.to_string());
    }
    let module_name = crate::form::required_attr(form, "name")?;
    let segment = match split_last_dot(module_name) {
        Some((_, last)) => last,
        None => module_name.to_string(),
    };
    if chars_of(segment.as_str()).len() == 0 {
        return Err(crate::form::error_at(form, crate::errors::FormIssue::AliasInvalidName));
    }
    Ok(segment)
}

} // verus!
