//! Module members, local names, and what a module can see: its imports and
//! aliases.
use vstd::prelude::*;
use crate::collections::{NameMap, NameSet, compare_names};
use crate::text::{chars_of, push_all, push_range, string_from_chars};

verus! {

/// The members a module declares, and which of them it exports.
#[derive(Debug)]
pub struct ModuleMembers {
    pub declared: NameSet,
    pub exported: NameSet,
}

impl ModuleMembers {
    /// Exported members are declared members.
    pub open spec fn wf(&self) -> bool {
        &&& self.declared.wf()
        &&& self.exported.wf()
        &&& forall|k: Seq<char>| self.exported.spec_contains(k) ==> self.declared.spec_contains(k)
    }

    /// No members.
    pub fn new() -> (r: Self)
        ensures
            r.wf(),
            forall|k: Seq<char>| !r.declared.spec_contains(k) && !r.exported.spec_contains(k),
    {
        ModuleMembers { declared: NameSet::new(), exported: NameSet::new() }
    }

    /// Declares `name`, exported when `exported`; a name already declared is
    /// refused (`false`) and nothing changes.
    pub fn insert(&mut self, name: String, exported: bool) -> (added: bool)
        requires
            old(self).wf(),
        ensures
            final(self).wf(),
            added == !old(self).declared.spec_contains(name@),
            forall|k: Seq<char>| #[trigger] final(self).declared.spec_contains(k) == (old(self).declared.spec_contains(k) || k == name@),
            forall|k: Seq<char>| #[trigger] final(self).exported.spec_contains(k) == (old(self).exported.spec_contains(k) || (added && exported && k == name@)),
    {
        if self.declared.contains(name.as_str()) {
            return false;
        }
        let ghost n = name@;
        if exported {
            let copy = name.clone();
            self.declared.insert(name);
            self.exported.insert(copy);
        } else {
            self.declared.insert(name);
        }
        true
    }

    /// Whether `name` is declared.
    pub fn contains_declared(&self, name: &str) -> (b: bool)
        requires
            self.wf(),
        ensures
            b == self.declared.spec_contains(name@),
    {
        self.declared.contains(name)
    }

    /// Whether `name` is exported.
    pub fn contains_exported(&self, name: &str) -> (b: bool)
        requires
            self.wf(),
        ensures
            b == self.exported.spec_contains(name@),
    {
        self.exported.contains(name)
    }

    /// The declared names.
    pub fn declared_names(&self) -> (r: NameSet)
        requires
            self.wf(),
        ensures
            r.wf(),
            forall|k: Seq<char>| r.spec_contains(k) == self.declared.spec_contains(k),
    {
        self.declared.copy()
    }
}

/// The consts, functions, scripts and vars of a module.
#[derive(Debug)]
pub struct ModuleExports {
    pub consts: ModuleMembers,
    pub functions: ModuleMembers,
    pub scripts: ModuleMembers,
    pub vars: ModuleMembers,
}

impl ModuleExports {
    pub open spec fn wf(&self) -> bool {
        self.consts.wf() && self.functions.wf() && self.scripts.wf() && self.vars.wf()
    }
}

/// The names local to a script.
#[derive(Debug)]
pub struct LocalScope {
    pub names: NameSet,
}

impl LocalScope {
    /// No names.
    pub fn new() -> (r: Self)
        ensures
            r.names.wf(),
            forall|k: Seq<char>| !r.names.spec_contains(k),
    {
        LocalScope { names: NameSet::new() }
    }

    /// Whether `name` is local.
    pub fn contains(&self, name: &str) -> (b: bool)
        requires
            self.names.wf(),
        ensures
            b == self.names.spec_contains(name@),
    {
        self.names.contains(name)
    }

    /// Makes `name` local.
    pub fn insert(&mut self, name: String)
        requires
            old(self).names.wf(),
        ensures
            final(self).names.wf(),
            forall|k: Seq<char>| #[trigger] final(self).names.spec_contains(k) == (old(self).names.spec_contains(k) || k == name@),
    {
        self.names.insert(name);
    }
}

/// The name of a module.
#[derive(Debug)]
pub struct ModulePath(pub String);

impl ModulePath {
    /// The module name.
    pub fn as_str(&self) -> (r: &str)
        ensures
            r@ == self.0@,
    {
        self.0.as_str()
    }
}

/// What the module being compiled can see: itself, its imports, and its
/// aliases (alias name to module).
#[derive(Debug)]
pub struct ModuleScope {
    pub current_module: ModulePath,
    pub imports: Vec<ModulePath>,
    pub aliases: NameMap<ModulePath>,
}

/// Index of the last `c` in `s`.
pub open spec fn spec_last_index_of(s: Seq<char>, c: char) -> Option<int>
    decreases s.len(),
{
    if s.len() == 0 {
        None
    } else if s.last() == c {
        Some(s.len() - 1)
    } else {
        spec_last_index_of(s.drop_last(), c)
    }
}

pub proof fn lemma_last_index_of(s: Seq<char>, c: char)
    ensures
        spec_last_index_of(s, c) matches Some(k) ==> 0 <= k < s.len() && s[k] == c && forall|j: int| k < j < s.len() ==> s[j] != c,
        spec_last_index_of(s, c) is None ==> forall|j: int| 0 <= j < s.len() ==> s[j] != c,
    decreases s.len(),
{
    if s.len() > 0 && s.last() != c {
        lemma_last_index_of(s.drop_last(), c);
        assert(s[s.len() - 1] == s.last());
        assert(forall|j: int| 0 <= j < s.len() - 1 ==> s.drop_last()[j] == s[j]);
    }
}

/// What a scope holds, as mathematical values: the current module, the
/// imports in order, and the aliases (alias to module).
pub struct ScopeView {
    pub current: Seq<char>,
    pub imports: Seq<Seq<char>>,
    pub aliases: Map<Seq<char>, Seq<char>>,
}

impl ScopeView {
    /// The module a name stands for: the aliased module, or the name itself.
    pub open spec fn normalize(self, name: Seq<char>) -> Seq<char> {
        if self.aliases.contains_key(name) {
            self.aliases[name]
        } else {
            name
        }
    }

    /// Whether a module (after alias resolution) is the current module, an
    /// alias target or an import.
    pub open spec fn can_access(self, name: Seq<char>) -> bool {
        let m = self.normalize(name);
        ||| m == self.current
        ||| exists|k: Seq<char>| #[trigger] self.aliases.contains_key(k) && self.aliases[k] == m
        ||| self.imports.contains(m)
    }

    /// A literal `prefix rest` with the module part of `rest` (before its
    /// last `.`) resolved through the aliases; text without the prefix stays.
    pub open spec fn normalize_literal(self, raw: Seq<char>, prefix: char) -> Seq<char> {
        if raw.len() == 0 || raw[0] != prefix {
            raw
        } else {
            let rest = raw.drop_first();
            match spec_last_index_of(rest, '.') {
                Some(k) => seq![prefix] + self.normalize(rest.take(k)) + seq!['.'] + rest.skip(k + 1),
                None => raw,
            }
        }
    }

    /// The scope with `m` imported last.
    pub open spec fn add_import(self, m: Seq<char>) -> ScopeView {
        ScopeView { current: self.current, imports: self.imports.push(m), aliases: self.aliases }
    }

    /// The scope with `alias` standing for `m`.
    pub open spec fn add_alias(self, alias: Seq<char>, m: Seq<char>) -> ScopeView {
        ScopeView { current: self.current, imports: self.imports, aliases: self.aliases.insert(alias, m) }
    }
}

/// The module name a path holds.
pub open spec fn spec_path_name(p: ModulePath) -> Seq<char> {
    p.0@
}

/// The aliases of a name map, as a mathematical map.
pub open spec fn spec_alias_map(m: NameMap<ModulePath>) -> Map<Seq<char>, Seq<char>> {
    Map::new(|k: Seq<char>| m.spec_contains(k), |k: Seq<char>| spec_path_name(m.spec_get(k)->0))
}

impl View for ModuleScope {
    type V = ScopeView;

    open spec fn view(&self) -> ScopeView {
        ScopeView { current: self.current_module.0@, imports: self.spec_imports(), aliases: spec_alias_map(self.aliases) }
    }
}

impl ModuleScope {
    pub open spec fn wf(&self) -> bool {
        self.aliases.wf()
    }

    pub open spec fn spec_current(&self) -> Seq<char> {
        self.current_module.0@
    }

    pub open spec fn spec_imports(&self) -> Seq<Seq<char>> {
        self.imports@.map_values(|m: ModulePath| m.0@)
    }

    /// The module a name stands for: the aliased module, or the name itself.
    pub open spec fn spec_normalize(&self, name: Seq<char>) -> Seq<char> {
        self@.normalize(name)
    }

    /// Whether a module (after alias resolution) is the current module, an
    /// alias target or an import.
    pub open spec fn spec_can_access(&self, name: Seq<char>) -> bool {
        self@.can_access(name)
    }

    /// A literal with its module part resolved through the aliases.
    pub open spec fn spec_normalize_literal(&self, raw: Seq<char>, prefix: char) -> Seq<char> {
        self@.normalize_literal(raw, prefix)
    }

    /// A scope for `module_name` with the given imports and aliases.
    pub fn new(module_name: String, imports: Vec<ModulePath>, aliases: NameMap<ModulePath>) -> (r: Self)
        ensures
            r.spec_current() == module_name@,
            r.imports == imports,
            r.aliases == aliases,
    {
        ModuleScope { current_module: ModulePath(module_name), imports, aliases }
    }

    /// The module being compiled.
    pub fn current_module(&self) -> (r: &str)
        ensures
            r@ == self.spec_current(),
    {
        self.current_module.as_str()
    }

    /// Adds an import.
    pub fn add_import(&mut self, module_name: String)
        ensures
            final(self).spec_imports() == old(self).spec_imports().push(module_name@),
            final(self).spec_current() == old(self).spec_current(),
            final(self).aliases == old(self).aliases,
            final(self)@ == old(self)@.add_import(module_name@),
    {
        let ghost n = module_name@;
        self.imports.push(ModulePath(module_name));
        assert(self.spec_imports() =~= old(self).spec_imports().push(n));
    }

    /// Makes `alias_name` stand for `module_name`.
    pub fn add_alias(&mut self, alias_name: String, module_name: String)
        requires
            old(self).wf(),
        ensures
            final(self).wf(),
            final(self).aliases.spec_get(alias_name@) == Some(ModulePath(module_name)),
            forall|k: Seq<char>| k != alias_name@ ==> final(self).aliases.spec_get(k) == old(self).aliases.spec_get(k),
            final(self).spec_imports() == old(self).spec_imports(),
            final(self).spec_current() == old(self).spec_current(),
            final(self)@ == old(self)@.add_alias(alias_name@, module_name@),
    {
        let ghost a = alias_name@;
        let ghost m = module_name@;
        self.aliases.insert(alias_name, ModulePath(module_name));
        proof {
            assert forall|k: Seq<char>| #[trigger] spec_alias_map(self.aliases).dom().contains(k)
                == old(self)@.aliases.insert(a, m).dom().contains(k) by {
                if k != a {
                    assert(self.aliases.spec_get(k) == old(self).aliases.spec_get(k));
                }
            }
            assert forall|k: Seq<char>| #[trigger] spec_alias_map(self.aliases).dom().contains(k)
                implies spec_alias_map(self.aliases)[k] == old(self)@.aliases.insert(a, m)[k] by {
                if k != a {
                    assert(self.aliases.spec_get(k) == old(self).aliases.spec_get(k));
                }
            }
            assert(spec_alias_map(self.aliases) =~= old(self)@.aliases.insert(a, m));
        }
    }

    /// The imports.
    pub fn imports(&self) -> (r: &[ModulePath])
        ensures
            r@ == self.imports@,
    {
        self.imports.as_slice()
    }

    /// The module a name stands for.
    pub fn normalize_module_path(&self, module_name: &str) -> (r: String)
        requires
            self.wf(),
        ensures
            r@ == self.spec_normalize(module_name@),
    {
        match self.aliases.get(module_name) {
            Some(path) => string_from_chars(&chars_of(path.as_str())),
            None => string_from_chars(&chars_of(module_name)),
        }
    }

    /// Whether the current module may refer to `module_name`.
    pub fn can_access_module(&self, module_name: &str) -> (b: bool)
        requires
            self.wf(),
        ensures
            b == self.spec_can_access(module_name@),
    {
        let m = self.normalize_module_path(module_name);
        if compare_names(m.as_str(), self.current_module()) == 0 {
            return true;
        }
        let mut i: usize = 0;
        while i < self.aliases.entries.len()
            invariant
                self.wf(),
                i <= self.aliases.entries@.len(),
                m@ == self.spec_normalize(module_name@),
                forall|j: int| 0 <= j < i ==> #[trigger] self.aliases.entries@[j].1.0@ != m@,
            decreases self.aliases.entries@.len() - i,
        {
            if compare_names(self.aliases.entries[i].1.as_str(), m.as_str()) == 0 {
                proof {
                    self.aliases.lemma_get_at(i as int);
                    let k = self.aliases.entries@[i as int].0@;
                    assert(self@.aliases.contains_key(k) && self@.aliases[k] == m@);
                }
                return true;
            }
            i = i + 1;
        }
        proof {
            assert forall|k: Seq<char>| #[trigger] self@.aliases.contains_key(k) implies self@.aliases[k] != m@ by {
                let x = self.aliases.spec_index_of(k);
                self.aliases.lemma_get_at(x);
                assert(self.aliases.entries@[x].1.0@ != m@);
            }
        }
        let mut j: usize = 0;
        while j < self.imports.len()
            invariant
                j <= self.imports@.len(),
                m@ == self.spec_normalize(module_name@),
                forall|k: int| 0 <= k < j ==> #[trigger] self.imports@[k].0@ != m@,
            decreases self.imports@.len() - j,
        {
            if compare_names(self.imports[j].as_str(), m.as_str()) == 0 {
                assert(self@.imports[j as int] == m@);
                return true;
            }
            j = j + 1;
        }
        proof {
            if self@.imports.contains(m@) {
                let x = choose|x: int| 0 <= x < self@.imports.len() && self@.imports[x] == m@;
                assert(self.imports@[x].0@ == m@);
            }
        }
        false
    }

    /// A script (`@`) or function (`#`) literal with its module part
    /// resolved through the aliases.
    pub fn normalize_literal(&self, raw: &str, prefix: char) -> (r: String)
        requires
            self.wf(),
        ensures
            r@ == self.spec_normalize_literal(raw@, prefix),
    {
        let chars = chars_of(raw);
        if chars.len() == 0 || chars[0] != prefix {
            return string_from_chars(&chars);
        }
        let ghost rest = chars@.drop_first();
        let mut k = chars.len();
        proof {
            lemma_last_index_of(rest, '.');
        }
        while k > 1 && chars[k - 1] != '.'
            invariant
                1 <= k <= chars@.len(),
                rest == chars@.drop_first(),
                forall|j: int| k <= j < chars@.len() ==> chars@[j] != '.',
            decreases k,
        {
            k = k - 1;
        }
        if k <= 1 {
            proof {
                assert forall|j: int| 0 <= j < rest.len() implies rest[j] != '.' by {
                    assert(rest[j] == chars@[j + 1]);
                }
                if spec_last_index_of(rest, '.') is Some {
                    let x = spec_last_index_of(rest, '.')->0;
                    assert(rest[x] == '.');
                }
            }
            return string_from_chars(&chars);
        }
        let dot = k - 1;
        proof {
            assert(rest[dot - 1] == '.');
            if spec_last_index_of(rest, '.') is None {
                assert(rest[dot - 1] != '.');
            } else {
                let x = spec_last_index_of(rest, '.')->0;
                if x > dot - 1 {
                    assert(chars@[x + 1] != '.');
                } else if x < dot - 1 {
                    assert(rest[dot - 1] != '.');
                }
            }
        }
        let mut module_part: Vec<char> = Vec::new();
        push_range(&mut module_part, &chars, 1, dot);
        assert(module_part@ =~= rest.take(dot - 1));
        let module_str = string_from_chars(&module_part);
        let normalized = self.normalize_module_path(module_str.as_str());
        let mut out: Vec<char> = vec![prefix];
        push_all(&mut out, &chars_of(normalized.as_str()));
        out.push('.');
        push_range(&mut out, &chars, dot + 1, chars.len());
        assert(chars@.subrange(dot + 1, chars@.len() as int) =~= rest.skip(dot as int));
        assert(out@ =~= self.spec_normalize_literal(raw@, prefix));
        string_from_chars(&out)
    }

    /// A script literal with its module part resolved.
    pub fn normalize_script_literal(&self, raw: &str) -> (r: String)
        requires
            self.wf(),
        ensures
            r@ == self.spec_normalize_literal(raw@, '@'),
    {
        self.normalize_literal(raw, '@')
    }

    /// A function literal with its module part resolved.
    pub fn normalize_function_literal(&self, raw: &str) -> (r: String)
        requires
            self.wf(),
        ensures
            r@ == self.spec_normalize_literal(raw@, '#'),
    {
        self.normalize_literal(raw, '#')
    }
}

} // verus!
