//! Which module vars an expression reads and writes.
//!
//! The expression is given as a tree of statements and expressions that
//! keeps what the analysis looks at: variables, local definitions, blocks,
//! assignments and the sub-expressions of every other construct.
use vstd::prelude::*;
use crate::collections::{NameSet, name_lt};

verus! {

/// An expression of the script language, as far as the analysis sees it.
#[derive(Debug)]
pub enum ScriptExpr {
    /// A variable; `qualified` when it carries a module path.
    Variable { name: String, qualified: bool },
    /// A construct whose parts are these expressions, in order (calls,
    /// arrays, maps, string interpolation, `&&`, `||`, `??`, custom syntax).
    Items(Vec<ScriptExpr>),
    /// A statement block used as an expression.
    Block(Vec<ScriptStmt>),
    /// A property access or an index: only the base is looked at.
    Access(Box<ScriptExpr>),
    /// A constant, `this`, a property name, or anything without parts.
    Leaf,
}

/// A statement of the script language, as far as the analysis sees it.
#[derive(Debug)]
pub enum ScriptStmt {
    Noop,
    /// `let name = init`.
    Var { name: String, init: ScriptExpr },
    If { cond: ScriptExpr, body: Vec<ScriptStmt>, branch: Vec<ScriptStmt> },
    /// A `switch`: the scrutinee and each case's condition and value.
    Switch { expr: ScriptExpr, cases: Vec<(ScriptExpr, ScriptExpr)> },
    /// `while` and `do` loops.
    While { cond: ScriptExpr, body: Vec<ScriptStmt> },
    /// `for var, counter in iter { body }`.
    For { var: String, counter: Option<String>, iter: ScriptExpr, body: Vec<ScriptStmt> },
    /// `lhs = rhs`, or `lhs op= rhs` when `op_assign`.
    Assignment { lhs: ScriptExpr, rhs: ScriptExpr, op_assign: bool },
    /// A function call statement with these arguments.
    FnCall(Vec<ScriptExpr>),
    Block(Vec<ScriptStmt>),
    /// `try { body } catch (catch_var) { branch }`.
    TryCatch { body: Vec<ScriptStmt>, catch_var: Option<String>, branch: Vec<ScriptStmt> },
    Expr(ScriptExpr),
    /// `break` or `return`, with an optional value.
    Exit(Option<ScriptExpr>),
    Import(ScriptExpr),
    /// Anything the analysis does not look into.
    Other,
}

/// The analysis state: the stack of local scopes, the module vars met so
/// far, and whether one was read or written.
pub struct AnalysisState {
    pub scopes: Seq<Set<Seq<char>>>,
    pub refs: Set<Seq<char>>,
    pub reads: bool,
    pub writes: bool,
}

pub open spec fn st_is_local(st: AnalysisState, n: Seq<char>) -> bool {
    exists|i: int| 0 <= i < st.scopes.len() && #[trigger] st.scopes[i].contains(n)
}

/// A read of `n`: counted when `n` is a known var not shadowed by a local.
pub open spec fn st_read(st: AnalysisState, known: Set<Seq<char>>, n: Seq<char>) -> AnalysisState {
    if known.contains(n) && !st_is_local(st, n) {
        AnalysisState { refs: st.refs.insert(n), reads: true, ..st }
    } else {
        st
    }
}

/// A write of `n`: counted when `n` is a known var not shadowed by a local.
pub open spec fn st_write(st: AnalysisState, known: Set<Seq<char>>, n: Seq<char>) -> AnalysisState {
    if known.contains(n) && !st_is_local(st, n) {
        AnalysisState { refs: st.refs.insert(n), writes: true, ..st }
    } else {
        st
    }
}

pub open spec fn st_define(st: AnalysisState, n: Seq<char>) -> AnalysisState {
    AnalysisState { scopes: st.scopes.update(st.scopes.len() - 1, st.scopes.last().insert(n)), ..st }
}

pub open spec fn st_push(st: AnalysisState) -> AnalysisState {
    AnalysisState { scopes: st.scopes.push(Set::empty()), ..st }
}

pub open spec fn st_pop(st: AnalysisState) -> AnalysisState {
    AnalysisState { scopes: st.scopes.drop_last(), ..st }
}

/// The state after analyzing `e` as a value.
pub open spec fn spec_expr(st: AnalysisState, known: Set<Seq<char>>, e: ScriptExpr) -> AnalysisState
    decreases e, 0int,
{
    match e {
        ScriptExpr::Variable { name, qualified } => st_read(st, known, name@),
        ScriptExpr::Items(items) => spec_exprs(st, known, items@),
        ScriptExpr::Block(body) => spec_block(st, known, body@),
        ScriptExpr::Access(base) => spec_expr(st, known, *base),
        ScriptExpr::Leaf => st,
    }
}

/// The state after analyzing each expression in turn.
pub open spec fn spec_exprs(st: AnalysisState, known: Set<Seq<char>>, es: Seq<ScriptExpr>) -> AnalysisState
    decreases es, 0int,
{
    if es.len() == 0 {
        st
    } else {
        spec_expr(spec_exprs(st, known, es.drop_last()), known, es.last())
    }
}

/// The state after analyzing the statements of a block in a scope of its
/// own.
pub open spec fn spec_block(st: AnalysisState, known: Set<Seq<char>>, body: Seq<ScriptStmt>) -> AnalysisState
    decreases body, 1int,
{
    st_pop(spec_stmts(st_push(st), known, body))
}

/// The state after analyzing each statement in turn.
pub open spec fn spec_stmts(st: AnalysisState, known: Set<Seq<char>>, body: Seq<ScriptStmt>) -> AnalysisState
    decreases body, 0int,
{
    if body.len() == 0 {
        st
    } else {
        spec_stmt(spec_stmts(st, known, body.drop_last()), known, body.last())
    }
}

/// The state after analyzing an assignment target: a variable is written;
/// the base of an access is a target too.
pub open spec fn spec_lvalue(st: AnalysisState, known: Set<Seq<char>>, e: ScriptExpr) -> AnalysisState
    decreases e, 1int,
{
    match e {
        ScriptExpr::Variable { name, qualified } => st_write(st, known, name@),
        ScriptExpr::Access(base) => spec_lvalue(st, known, *base),
        ScriptExpr::Leaf => st,
        _ => spec_expr(st, known, e),
    }
}

/// The state after the read an `op=` assignment makes of its target.
pub open spec fn spec_assign_read(st: AnalysisState, known: Set<Seq<char>>, e: ScriptExpr) -> AnalysisState
    decreases e, 1int,
{
    match e {
        ScriptExpr::Variable { name, qualified } => st_read(st, known, name@),
        ScriptExpr::Access(base) => spec_assign_read(st, known, *base),
        ScriptExpr::Leaf => st,
        _ => spec_expr(st, known, e),
    }
}

/// The state after analyzing each switch case's condition and value.
pub open spec fn spec_cases(st: AnalysisState, known: Set<Seq<char>>, cases: Seq<(ScriptExpr, ScriptExpr)>) -> AnalysisState
    decreases cases, 0int,
{
    if cases.len() == 0 {
        st
    } else {
        let s1 = spec_cases(st, known, cases.drop_last());
        spec_expr(spec_expr(s1, known, cases.last().0), known, cases.last().1)
    }
}

/// The state after analyzing one statement.
pub open spec fn spec_stmt(st: AnalysisState, known: Set<Seq<char>>, s: ScriptStmt) -> AnalysisState
    decreases s, 0int,
{
    match s {
        ScriptStmt::Noop => st,
        ScriptStmt::Var { name, init } => st_define(spec_expr(st, known, init), name@),
        ScriptStmt::If { cond, body, branch } => spec_block(
            spec_block(spec_expr(st, known, cond), known, body@),
            known,
            branch@,
        ),
        ScriptStmt::Switch { expr, cases } => spec_cases(spec_expr(st, known, expr), known, cases@),
        ScriptStmt::While { cond, body } => spec_block(spec_expr(st, known, cond), known, body@),
        ScriptStmt::For { var, counter, iter, body } => {
            let s1 = st_define(st_push(spec_expr(st, known, iter)), var@);
            let s2 = match counter {
                Some(c) => st_define(s1, c@),
                None => s1,
            };
            st_pop(spec_block(s2, known, body@))
        },
        ScriptStmt::Assignment { lhs, rhs, op_assign } => {
            let s1 = spec_expr(spec_lvalue(st, known, lhs), known, rhs);
            if op_assign {
                spec_assign_read(s1, known, lhs)
            } else {
                s1
            }
        },
        ScriptStmt::FnCall(args) => spec_exprs(st, known, args@),
        ScriptStmt::Block(body) => spec_block(st, known, body@),
        ScriptStmt::TryCatch { body, catch_var, branch } => {
            let s1 = st_push(spec_block(st, known, body@));
            let s2 = match catch_var {
                Some(c) => st_define(s1, c@),
                None => s1,
            };
            st_pop(spec_block(s2, known, branch@))
        },
        ScriptStmt::Expr(e) => spec_expr(st, known, e),
        ScriptStmt::Exit(v) => match v {
            Some(e) => spec_expr(st, known, e),
            None => st,
        },
        ScriptStmt::Import(e) => spec_expr(st, known, e),
        ScriptStmt::Other => st,
    }
}

/// The result of the analysis: the module vars met, in ascending order;
/// whether one is read and whether one is written; and the var the whole
/// expression is, when it is nothing but one unqualified known var.
#[derive(Debug)]
pub struct ExprAnalysis {
    pub referenced_vars: Vec<String>,
    pub reads_external: bool,
    pub writes_external: bool,
    pub is_simple_var_ref: Option<String>,
}

impl ExprAnalysis {
    /// Assembles a result; the vars come out in ascending order.
    pub fn from_parts(referenced_vars: &NameSet, reads_external: bool, writes_external: bool, is_simple_var_ref: Option<String>) -> (r: Self)
        requires
            referenced_vars.wf(),
        ensures
            r.referenced_vars@.map_values(|x: String| x@) == referenced_vars.members(),
            r.reads_external == reads_external,
            r.writes_external == writes_external,
            r.is_simple_var_ref == is_simple_var_ref,
    {
        ExprAnalysis {
            referenced_vars: referenced_vars.to_vec(),
            reads_external,
            writes_external,
            is_simple_var_ref,
        }
    }
}

/// The state of an analysis under way.
pub struct Analyzer<'a> {
    pub known_vars: &'a NameSet,
    pub scopes: Vec<NameSet>,
    pub referenced_vars: NameSet,
    pub reads_external: bool,
    pub writes_external: bool,
}

impl<'a> Analyzer<'a> {
    pub open spec fn view(&self) -> AnalysisState {
        AnalysisState {
            scopes: self.scopes@.map_values(|n: NameSet| n.view_set()),
            refs: self.referenced_vars.view_set(),
            reads: self.reads_external,
            writes: self.writes_external,
        }
    }

    pub open spec fn wf(&self) -> bool {
        &&& self.known_vars.wf()
        &&& self.referenced_vars.wf()
        &&& forall|i: int| 0 <= i < self.scopes@.len() ==> (#[trigger] self.scopes@[i]).wf()
    }

    pub open spec fn known(&self) -> Set<Seq<char>> {
        self.known_vars.view_set()
    }

    /// A fresh analysis: one empty scope, nothing met.
    pub fn new(known_vars: &'a NameSet) -> (r: Self)
        requires
            known_vars.wf(),
        ensures
            r.wf(),
            r.known_vars == known_vars,
            r.view().scopes == seq![Set::<Seq<char>>::empty()],
            r.scopes@.len() == 1,
            r.view().refs == Set::<Seq<char>>::empty(),
            !r.view().reads,
            !r.view().writes,
    {
        let mut scopes: Vec<NameSet> = Vec::new();
        scopes.push(NameSet::new());
        let r = Analyzer {
            known_vars,
            scopes,
            referenced_vars: NameSet::new(),
            reads_external: false,
            writes_external: false,
        };
        assert(r.view().scopes =~= seq![Set::<Seq<char>>::empty()]);
        assert(r.view().refs =~= Set::<Seq<char>>::empty());
        r
    }

    /// Opens a scope.
    pub fn push_scope(&mut self)
        requires
            old(self).wf(),
        ensures
            final(self).wf(),
            final(self).known_vars == old(self).known_vars,
            final(self).view() == st_push(old(self).view()),
            final(self).scopes@.len() == old(self).scopes@.len() + 1,
    {
        let ghost old_scopes = self.scopes@;
        self.scopes.push(NameSet::new());
        assert(self.view().scopes =~= old(self).view().scopes.push(Set::empty()));
    }

    /// Closes the innermost scope.
    pub fn pop_scope(&mut self)
        requires
            old(self).wf(),
            old(self).scopes@.len() >= 1,
        ensures
            final(self).wf(),
            final(self).known_vars == old(self).known_vars,
            final(self).view() == st_pop(old(self).view()),
            final(self).scopes@.len() == old(self).scopes@.len() - 1,
    {
        self.scopes.pop();
        assert(self.view().scopes =~= old(self).view().scopes.drop_last());
    }

    /// Makes `name` local to the innermost scope.
    pub fn define_local(&mut self, name: String)
        requires
            old(self).wf(),
            old(self).scopes@.len() >= 1,
        ensures
            final(self).wf(),
            final(self).known_vars == old(self).known_vars,
            final(self).view() == st_define(old(self).view(), name@),
            final(self).scopes@.len() == old(self).scopes@.len(),
    {
        let last = self.scopes.len() - 1;
        let mut scope = self.scopes.pop().unwrap();
        let ghost n = name@;
        let ghost old_set = scope.view_set();
        scope.insert(name);
        assert(scope.view_set() =~= old_set.insert(n));
        self.scopes.push(scope);
        assert(self.view().scopes =~= old(self).view().scopes.update(last as int, old(self).view().scopes.last().insert(n)));
    }

    /// Whether `name` is local to some open scope.
    pub fn is_local(&self, name: &str) -> (b: bool)
        requires
            self.wf(),
        ensures
            b == st_is_local(self.view(), name@),
    {
        let mut i = self.scopes.len();
        while i > 0
            invariant
                i <= self.scopes@.len(),
                self.wf(),
                forall|j: int| i <= j < self.scopes@.len() ==> !(#[trigger] self.scopes@[j]).spec_contains(name@),
            decreases i,
        {
            i = i - 1;
            if self.scopes[i].contains(name) {
                assert(self.view().scopes[i as int].contains(name@));
                return true;
            }
        }
        assert(!st_is_local(self.view(), name@)) by {
            if st_is_local(self.view(), name@) {
                let j = choose|j: int| 0 <= j < self.view().scopes.len() && #[trigger] self.view().scopes[j].contains(name@);
                assert(self.scopes@[j].spec_contains(name@));
            }
        }
        false
    }

    /// Counts a read of `name`.
    pub fn record_external_read(&mut self, name: &str)
        requires
            old(self).wf(),
        ensures
            final(self).wf(),
            final(self).known_vars == old(self).known_vars,
            final(self).view() == st_read(old(self).view(), old(self).known(), name@),
            final(self).scopes == old(self).scopes,
    {
        if self.known_vars.contains(name) && !self.is_local(name) {
            let ghost old_refs = self.referenced_vars.view_set();
            self.referenced_vars.insert(crate::text::string_from_chars(&crate::text::chars_of(name)));
            self.reads_external = true;
            assert(self.referenced_vars.view_set() =~= old_refs.insert(name@));
        }
    }

    /// Counts a write of `name`.
    pub fn record_external_write(&mut self, name: &str)
        requires
            old(self).wf(),
        ensures
            final(self).wf(),
            final(self).known_vars == old(self).known_vars,
            final(self).view() == st_write(old(self).view(), old(self).known(), name@),
            final(self).scopes == old(self).scopes,
    {
        if self.known_vars.contains(name) && !self.is_local(name) {
            let ghost old_refs = self.referenced_vars.view_set();
            self.referenced_vars.insert(crate::text::string_from_chars(&crate::text::chars_of(name)));
            self.writes_external = true;
            assert(self.referenced_vars.view_set() =~= old_refs.insert(name@));
        }
    }

    /// Analyzes an expression used as a value.
    pub fn analyze_expr(&mut self, e: &ScriptExpr)
        requires
            old(self).wf(),
            old(self).scopes@.len() >= 1,
        ensures
            final(self).wf(),
            final(self).known_vars == old(self).known_vars,
            final(self).scopes@.len() == old(self).scopes@.len(),
            final(self).view() == spec_expr(old(self).view(), old(self).known(), *e),
        decreases e, 0int,
    {
        match e {
            ScriptExpr::Variable { name, qualified } => self.record_external_read(name.as_str()),
            ScriptExpr::Items(items) => {
                proof {
                    assert(decreases_to!(*e => (*e)->Items_0));
                }
                self.analyze_exprs(items)
            },
            ScriptExpr::Block(body) => {
                proof {
                    assert(decreases_to!(*e => (*e)->Block_0));
                }
                self.analyze_block(body)
            },
            ScriptExpr::Access(base) => {
                proof {
                    assert(decreases_to!(*e => (*e)->Access_0));
                }
                self.analyze_expr(base)
            },
            ScriptExpr::Leaf => {},
        }
    }

    /// Analyzes each expression in turn.
    pub fn analyze_exprs(&mut self, es: &Vec<ScriptExpr>)
        requires
            old(self).wf(),
            old(self).scopes@.len() >= 1,
        ensures
            final(self).wf(),
            final(self).known_vars == old(self).known_vars,
            final(self).scopes@.len() == old(self).scopes@.len(),
            final(self).view() == spec_exprs(old(self).view(), old(self).known(), es@),
        decreases es, 0int,
    {
        let mut i: usize = 0;
        while i < es.len()
            invariant
                self.wf(),
                self.known_vars == old(self).known_vars,
                self.scopes@.len() == old(self).scopes@.len(),
                old(self).scopes@.len() >= 1,
                i <= es@.len(),
                self.view() == spec_exprs(old(self).view(), old(self).known(), es@.take(i as int)),
            decreases es@.len() - i,
        {
            proof {
                assert(decreases_to!(*es => es@));
                assert(decreases_to!(es@ => es@[i as int]));
                assert(es@.take(i + 1).drop_last() =~= es@.take(i as int));
            }
            self.analyze_expr(&es[i]);
            i = i + 1;
        }
        assert(es@.take(i as int) =~= es@);
    }

    /// Analyzes the statements of a block in a scope of its own.
    pub fn analyze_block(&mut self, body: &Vec<ScriptStmt>)
        requires
            old(self).wf(),
            old(self).scopes@.len() >= 1,
        ensures
            final(self).wf(),
            final(self).known_vars == old(self).known_vars,
            final(self).scopes@.len() == old(self).scopes@.len(),
            final(self).view() == spec_block(old(self).view(), old(self).known(), body@),
        decreases body, 1int,
    {
        self.push_scope();
        self.analyze_stmts(body);
        self.pop_scope();
    }

    /// Analyzes each statement in turn.
    pub fn analyze_stmts(&mut self, body: &Vec<ScriptStmt>)
        requires
            old(self).wf(),
            old(self).scopes@.len() >= 1,
        ensures
            final(self).wf(),
            final(self).known_vars == old(self).known_vars,
            final(self).scopes@.len() == old(self).scopes@.len(),
            final(self).view() == spec_stmts(old(self).view(), old(self).known(), body@),
        decreases body, 0int,
    {
        let mut i: usize = 0;
        while i < body.len()
            invariant
                self.wf(),
                self.known_vars == old(self).known_vars,
                self.scopes@.len() == old(self).scopes@.len(),
                old(self).scopes@.len() >= 1,
                i <= body@.len(),
                self.view() == spec_stmts(old(self).view(), old(self).known(), body@.take(i as int)),
            decreases body@.len() - i,
        {
            proof {
                assert(decreases_to!(*body => body@));
                assert(decreases_to!(body@ => body@[i as int]));
                assert(body@.take(i + 1).drop_last() =~= body@.take(i as int));
            }
            self.analyze_stmt(&body[i]);
            i = i + 1;
        }
        assert(body@.take(i as int) =~= body@);
    }

    /// Analyzes an assignment target.
    pub fn analyze_lvalue(&mut self, e: &ScriptExpr)
        requires
            old(self).wf(),
            old(self).scopes@.len() >= 1,
        ensures
            final(self).wf(),
            final(self).known_vars == old(self).known_vars,
            final(self).scopes@.len() == old(self).scopes@.len(),
            final(self).view() == spec_lvalue(old(self).view(), old(self).known(), *e),
        decreases e, 1int,
    {
        match e {
            ScriptExpr::Variable { name, qualified } => self.record_external_write(name.as_str()),
            ScriptExpr::Access(base) => {
                proof {
                    assert(decreases_to!(*e => (*e)->Access_0));
                }
                self.analyze_lvalue(base)
            },
            ScriptExpr::Leaf => {},
            _ => self.analyze_expr(e),
        }
    }

    /// Analyzes the read an `op=` assignment makes of its target.
    pub fn analyze_assignment_read(&mut self, e: &ScriptExpr)
        requires
            old(self).wf(),
            old(self).scopes@.len() >= 1,
        ensures
            final(self).wf(),
            final(self).known_vars == old(self).known_vars,
            final(self).scopes@.len() == old(self).scopes@.len(),
            final(self).view() == spec_assign_read(old(self).view(), old(self).known(), *e),
        decreases e, 1int,
    {
        match e {
            ScriptExpr::Variable { name, qualified } => self.record_external_read(name.as_str()),
            ScriptExpr::Access(base) => {
                proof {
                    assert(decreases_to!(*e => (*e)->Access_0));
                }
                self.analyze_assignment_read(base)
            },
            ScriptExpr::Leaf => {},
            _ => self.analyze_expr(e),
        }
    }

    /// Analyzes one statement.
    pub fn analyze_stmt(&mut self, stmt: &ScriptStmt)
        requires
            old(self).wf(),
            old(self).scopes@.len() >= 1,
        ensures
            final(self).wf(),
            final(self).known_vars == old(self).known_vars,
            final(self).scopes@.len() == old(self).scopes@.len(),
            final(self).view() == spec_stmt(old(self).view(), old(self).known(), *stmt),
        decreases stmt, 0int,
    {
        match stmt {
            ScriptStmt::Noop => {},
            ScriptStmt::Var { name, init } => {
                self.analyze_expr(init);
                self.define_local(name.clone());
            },
            ScriptStmt::If { cond, body, branch } => {
                self.analyze_expr(cond);
                self.analyze_block(body);
                self.analyze_block(branch);
            },
            ScriptStmt::Switch { expr, cases } => {
                self.analyze_expr(expr);
                let ghost s0 = self.view();
                let mut i: usize = 0;
                while i < cases.len()
                    invariant
                        self.wf(),
                        self.known_vars == old(self).known_vars,
                        self.scopes@.len() == old(self).scopes@.len(),
                        old(self).scopes@.len() >= 1,
                        i <= cases@.len(),
                        *stmt == (ScriptStmt::Switch { expr: *expr, cases: *cases }),
                        self.view() == spec_cases(s0, old(self).known(), cases@.take(i as int)),
                    decreases cases@.len() - i,
                {
                    proof {
                        assert(decreases_to!(*stmt => (*stmt)->cases));
                        assert(decreases_to!(*cases => cases@));
                        assert(decreases_to!(cases@ => cases@[i as int]));
                        assert(decreases_to!(cases@[i as int] => cases@[i as int].0));
                        assert(decreases_to!(cases@[i as int] => cases@[i as int].1));
                        assert(cases@.take(i + 1).drop_last() =~= cases@.take(i as int));
                    }
                    self.analyze_expr(&cases[i].0);
                    self.analyze_expr(&cases[i].1);
                    i = i + 1;
                }
                assert(cases@.take(i as int) =~= cases@);
            },
            ScriptStmt::While { cond, body } => {
                self.analyze_expr(cond);
                self.analyze_block(body);
            },
            ScriptStmt::For { var, counter, iter, body } => {
                self.analyze_expr(iter);
                self.push_scope();
                self.define_local(var.clone());
                match counter {
                    Some(c) => self.define_local(c.clone()),
                    None => {},
                }
                self.analyze_block(body);
                self.pop_scope();
            },
            ScriptStmt::Assignment { lhs, rhs, op_assign } => {
                self.analyze_lvalue(lhs);
                self.analyze_expr(rhs);
                if *op_assign {
                    self.analyze_assignment_read(lhs);
                }
            },
            ScriptStmt::FnCall(args) => {
                self.analyze_exprs(args);
            },
            ScriptStmt::Block(body) => {
                self.analyze_block(body);
            },
            ScriptStmt::TryCatch { body, catch_var, branch } => {
                self.analyze_block(body);
                self.push_scope();
                match catch_var {
                    Some(c) => self.define_local(c.clone()),
                    None => {},
                }
                self.analyze_block(branch);
                self.pop_scope();
            },
            ScriptStmt::Expr(e) => {
                self.analyze_expr(e);
            },
            ScriptStmt::Exit(v) => {
                match v {
                    Some(e) => self.analyze_expr(e),
                    None => {},
                }
            },
            ScriptStmt::Import(e) => {
                self.analyze_expr(e);
            },
            ScriptStmt::Other => {},
        }
    }
}

/// The analysis state before anything is analyzed.
pub open spec fn spec_initial_state() -> AnalysisState {
    AnalysisState {
        scopes: seq![Set::<Seq<char>>::empty()],
        refs: Set::<Seq<char>>::empty(),
        reads: false,
        writes: false,
    }
}

/// The var a whole expression is, when it is one statement that is nothing
/// but an unqualified known var.
pub open spec fn spec_simple_var_ref(stmts: Seq<ScriptStmt>, known: Set<Seq<char>>) -> Option<Seq<char>> {
    if stmts.len() == 1 {
        match stmts[0] {
            ScriptStmt::Expr(ScriptExpr::Variable { name, qualified }) => if !qualified && known.contains(name@) {
                Some(name@)
            } else {
                None
            },
            _ => None,
        }
    } else {
        None
    }
}

/// The var the expression is, when it is nothing but one known var.
pub fn simple_var_ref(stmts: &Vec<ScriptStmt>, known_vars: &NameSet) -> (r: Option<String>)
    requires
        known_vars.wf(),
    ensures
        match r {
            Some(n) => spec_simple_var_ref(stmts@, known_vars.view_set()) == Some(n@),
            None => spec_simple_var_ref(stmts@, known_vars.view_set()) is None,
        },
{
    if stmts.len() != 1 {
        return None;
    }
    match &stmts[0] {
        ScriptStmt::Expr(ScriptExpr::Variable { name, qualified }) => {
            if !*qualified && known_vars.contains(name.as_str()) {
                Some(name.clone())
            } else {
                None
            }
        },
        _ => None,
    }
}

/// Analyzes the statements of an expression: which known vars it reads or
/// writes outside the locals it defines, and whether it is one var.
pub fn analyze_ast(stmts: &Vec<ScriptStmt>, known_vars: &NameSet) -> (r: ExprAnalysis)
    requires
        known_vars.wf(),
    ensures
        ({
            let fin = spec_stmts(spec_initial_state(), known_vars.view_set(), stmts@);
            let rv = r.referenced_vars@.map_values(|x: String| x@);
            &&& forall|i: int, j: int| 0 <= i < j < rv.len() ==> name_lt(rv[i], rv[j])
            &&& forall|k: Seq<char>| fin.refs.contains(k) <==> rv.contains(k)
            &&& r.reads_external == fin.reads
            &&& r.writes_external == fin.writes
        }),
        match r.is_simple_var_ref {
            Some(n) => spec_simple_var_ref(stmts@, known_vars.view_set()) == Some(n@),
            None => spec_simple_var_ref(stmts@, known_vars.view_set()) is None,
        },
{
    let mut analyzer = Analyzer::new(known_vars);
    analyzer.analyze_stmts(stmts);
    let simple = simple_var_ref(stmts, known_vars);
    let r = ExprAnalysis::from_parts(&analyzer.referenced_vars, analyzer.reads_external, analyzer.writes_external, simple);
    proof {
        let rv = r.referenced_vars@.map_values(|x: String| x@);
        let refs = analyzer.referenced_vars;
        assert(rv == refs.members());
        assert forall|i: int, j: int| 0 <= i < j < rv.len() implies name_lt(rv[i], rv[j]) by {
            assert(rv[i] == refs.map.entries@[i].0@);
            assert(rv[j] == refs.map.entries@[j].0@);
        }
        assert forall|k: Seq<char>| refs.view_set().contains(k) <==> rv.contains(k) by {
            if refs.spec_contains(k) {
                let c = choose|c: int| 0 <= c < refs.map.entries@.len() && #[trigger] refs.map.entries@[c].0@ == k;
                assert(rv[c] == k);
            }
            if rv.contains(k) {
                let c = choose|c: int| 0 <= c < rv.len() && rv[c] == k;
                assert(refs.map.entries@[c].0@ == k);
            }
        }
    }
    r
}

} // verus!
