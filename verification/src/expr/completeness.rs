//! Completeness of the read/write analysis: every use of a module var that
//! no local declaration can shadow is reported.
use vstd::prelude::*;
use crate::expr::analysis::{
    AnalysisState, ScriptExpr, ScriptStmt, spec_assign_read, spec_block, spec_cases, spec_expr, spec_exprs,
    spec_initial_state, spec_lvalue, spec_stmt, spec_stmts, st_define, st_is_local, st_pop, st_push, st_read,
    st_write,
};

verus! {

/// Where a name occurs in a piece of syntax: read, written (as an
/// assignment target), or declared as a local (`let`, a loop variable, a
/// caught error).
pub struct Occurs {
    pub read: bool,
    pub write: bool,
    pub decl: bool,
}

pub open spec fn occ_none() -> Occurs {
    Occurs { read: false, write: false, decl: false }
}

pub open spec fn occ_or(a: Occurs, b: Occurs) -> Occurs {
    Occurs { read: a.read || b.read, write: a.write || b.write, decl: a.decl || b.decl }
}

/// The occurrences of `n` in an expression.
pub open spec fn occ_expr(e: ScriptExpr, n: Seq<char>) -> Occurs
    decreases e, 0int,
{
    match e {
        ScriptExpr::Variable { name, qualified } => Occurs { read: name@ == n, write: false, decl: false },
        ScriptExpr::Items(items) => occ_exprs(items@, n),
        ScriptExpr::Block(body) => occ_stmts(body@, n),
        ScriptExpr::Access(base) => occ_expr(*base, n),
        ScriptExpr::Leaf => occ_none(),
    }
}

pub open spec fn occ_exprs(es: Seq<ScriptExpr>, n: Seq<char>) -> Occurs
    decreases es, 0int,
{
    if es.len() == 0 {
        occ_none()
    } else {
        occ_or(occ_exprs(es.drop_last(), n), occ_expr(es.last(), n))
    }
}

pub open spec fn occ_stmts(ss: Seq<ScriptStmt>, n: Seq<char>) -> Occurs
    decreases ss, 0int,
{
    if ss.len() == 0 {
        occ_none()
    } else {
        occ_or(occ_stmts(ss.drop_last(), n), occ_stmt(ss.last(), n))
    }
}

/// The occurrences of `n` in an assignment target: a variable there is
/// written.
pub open spec fn occ_lvalue(e: ScriptExpr, n: Seq<char>) -> Occurs
    decreases e, 1int,
{
    match e {
        ScriptExpr::Variable { name, qualified } => Occurs { read: false, write: name@ == n, decl: false },
        ScriptExpr::Access(base) => occ_lvalue(*base, n),
        ScriptExpr::Leaf => occ_none(),
        _ => occ_expr(e, n),
    }
}

/// The occurrences of `n` that an `op=` assignment reads in its target.
pub open spec fn occ_assign_read(e: ScriptExpr, n: Seq<char>) -> Occurs
    decreases e, 1int,
{
    match e {
        ScriptExpr::Variable { name, qualified } => Occurs { read: name@ == n, write: false, decl: false },
        ScriptExpr::Access(base) => occ_assign_read(*base, n),
        ScriptExpr::Leaf => occ_none(),
        _ => occ_expr(e, n),
    }
}

pub open spec fn occ_cases(cases: Seq<(ScriptExpr, ScriptExpr)>, n: Seq<char>) -> Occurs
    decreases cases, 0int,
{
    if cases.len() == 0 {
        occ_none()
    } else {
        occ_or(occ_cases(cases.drop_last(), n), occ_or(occ_expr(cases.last().0, n), occ_expr(cases.last().1, n)))
    }
}

/// The occurrences of `n` in a statement, wherever they are nested.
pub open spec fn occ_stmt(s: ScriptStmt, n: Seq<char>) -> Occurs
    decreases s, 0int,
{
    match s {
        ScriptStmt::Noop => occ_none(),
        ScriptStmt::Var { name, init } => occ_or(occ_expr(init, n), Occurs { read: false, write: false, decl: name@ == n }),
        ScriptStmt::If { cond, body, branch } => occ_or(occ_expr(cond, n), occ_or(occ_stmts(body@, n), occ_stmts(branch@, n))),
        ScriptStmt::Switch { expr, cases } => occ_or(occ_expr(expr, n), occ_cases(cases@, n)),
        ScriptStmt::While { cond, body } => occ_or(occ_expr(cond, n), occ_stmts(body@, n)),
        ScriptStmt::For { var, counter, iter, body } => occ_or(
            occ_expr(iter, n),
            occ_or(
                Occurs { read: false, write: false, decl: var@ == n || (counter matches Some(c) && c@ == n) },
                occ_stmts(body@, n),
            ),
        ),
        ScriptStmt::Assignment { lhs, rhs, op_assign } => occ_or(
            occ_or(occ_lvalue(lhs, n), occ_expr(rhs, n)),
            if op_assign {
                occ_assign_read(lhs, n)
            } else {
                occ_none()
            },
        ),
        ScriptStmt::FnCall(args) => occ_exprs(args@, n),
        ScriptStmt::Block(body) => occ_stmts(body@, n),
        ScriptStmt::TryCatch { body, catch_var, branch } => occ_or(
            occ_stmts(body@, n),
            occ_or(Occurs { read: false, write: false, decl: catch_var matches Some(c) && c@ == n }, occ_stmts(branch@, n)),
        ),
        ScriptStmt::Expr(e) => occ_expr(e, n),
        ScriptStmt::Exit(v) => match v {
            Some(e) => occ_expr(e, n),
            None => occ_none(),
        },
        ScriptStmt::Import(e) => occ_expr(e, n),
        ScriptStmt::Other => occ_none(),
    }
}

/// What an analysis step from `st` to `st2` must keep for the name `n` that
/// occurs as `o`: nothing met is forgotten, the scope depth is kept, `n`
/// stays unshadowed unless declared, and a read or write of an unshadowed,
/// undeclared known `n` is reported.
pub open spec fn step_keeps(st: AnalysisState, st2: AnalysisState, known: Set<Seq<char>>, n: Seq<char>, o: Occurs) -> bool {
    &&& st.refs.subset_of(st2.refs)
    &&& st.reads ==> st2.reads
    &&& st.writes ==> st2.writes
    &&& st2.scopes.len() == st.scopes.len()
    &&& (!st_is_local(st, n) && !o.decl) ==> !st_is_local(st2, n)
    &&& (known.contains(n) && !st_is_local(st, n) && !o.decl && o.read) ==> st2.refs.contains(n) && st2.reads
    &&& (known.contains(n) && !st_is_local(st, n) && !o.decl && o.write) ==> st2.refs.contains(n) && st2.writes
}

proof fn lemma_keeps_chain(
    s1: AnalysisState,
    s2: AnalysisState,
    s3: AnalysisState,
    known: Set<Seq<char>>,
    n: Seq<char>,
    a: Occurs,
    b: Occurs,
)
    requires
        step_keeps(s1, s2, known, n, a),
        step_keeps(s2, s3, known, n, b),
    ensures
        step_keeps(s1, s3, known, n, occ_or(a, b)),
{
}

proof fn lemma_keeps_refl(st: AnalysisState, known: Set<Seq<char>>, n: Seq<char>)
    ensures
        step_keeps(st, st, known, n, occ_none()),
{
}

proof fn lemma_read_keeps(st: AnalysisState, known: Set<Seq<char>>, x: Seq<char>, n: Seq<char>)
    ensures
        step_keeps(st, st_read(st, known, x), known, n, Occurs { read: x == n, write: false, decl: false }),
{
    assert(st_read(st, known, x).scopes == st.scopes);
}

proof fn lemma_write_keeps(st: AnalysisState, known: Set<Seq<char>>, x: Seq<char>, n: Seq<char>)
    ensures
        step_keeps(st, st_write(st, known, x), known, n, Occurs { read: false, write: x == n, decl: false }),
{
    assert(st_write(st, known, x).scopes == st.scopes);
}

proof fn lemma_define_keeps(st: AnalysisState, known: Set<Seq<char>>, x: Seq<char>, n: Seq<char>)
    requires
        st.scopes.len() >= 1,
    ensures
        step_keeps(st, st_define(st, x), known, n, Occurs { read: false, write: false, decl: x == n }),
{
    let s2 = st_define(st, x);
    if !st_is_local(st, n) && x != n {
        assert forall|i: int| 0 <= i < s2.scopes.len() implies !(#[trigger] s2.scopes[i]).contains(n) by {
            if i == st.scopes.len() - 1 {
                assert(s2.scopes[i] == st.scopes.last().insert(x));
                assert(!st.scopes[i].contains(n));
            } else {
                assert(s2.scopes[i] == st.scopes[i]);
                assert(!st.scopes[i].contains(n));
            }
        }
    }
}

proof fn lemma_push_keeps(st: AnalysisState, known: Set<Seq<char>>, n: Seq<char>)
    ensures
        st_push(st).scopes.len() == st.scopes.len() + 1,
        st_push(st).refs == st.refs && st_push(st).reads == st.reads && st_push(st).writes == st.writes,
        !st_is_local(st, n) ==> !st_is_local(st_push(st), n),
{
    let s2 = st_push(st);
    if !st_is_local(st, n) {
        assert forall|i: int| 0 <= i < s2.scopes.len() implies !(#[trigger] s2.scopes[i]).contains(n) by {
            if i < st.scopes.len() {
                assert(s2.scopes[i] == st.scopes[i]);
                assert(!st.scopes[i].contains(n));
            }
        }
    }
}

proof fn lemma_pop_keeps(st: AnalysisState, known: Set<Seq<char>>, n: Seq<char>)
    requires
        st.scopes.len() >= 1,
    ensures
        st_pop(st).scopes.len() == st.scopes.len() - 1,
        st_pop(st).refs == st.refs && st_pop(st).reads == st.reads && st_pop(st).writes == st.writes,
        !st_is_local(st, n) ==> !st_is_local(st_pop(st), n),
{
    let s2 = st_pop(st);
    if !st_is_local(st, n) {
        assert forall|i: int| 0 <= i < s2.scopes.len() implies !(#[trigger] s2.scopes[i]).contains(n) by {
            assert(s2.scopes[i] == st.scopes[i]);
            assert(!st.scopes[i].contains(n));
        }
    }
}

proof fn lemma_expr_keeps(st: AnalysisState, known: Set<Seq<char>>, e: ScriptExpr, n: Seq<char>)
    requires
        st.scopes.len() >= 1,
    ensures
        step_keeps(st, spec_expr(st, known, e), known, n, occ_expr(e, n)),
    decreases e, 0int,
{
    match e {
        ScriptExpr::Variable { name, qualified } => lemma_read_keeps(st, known, name@, n),
        ScriptExpr::Items(items) => lemma_exprs_keeps(st, known, items@, n),
        ScriptExpr::Block(body) => lemma_block_keeps(st, known, body@, n),
        ScriptExpr::Access(base) => lemma_expr_keeps(st, known, *base, n),
        ScriptExpr::Leaf => lemma_keeps_refl(st, known, n),
    }
}

proof fn lemma_exprs_keeps(st: AnalysisState, known: Set<Seq<char>>, es: Seq<ScriptExpr>, n: Seq<char>)
    requires
        st.scopes.len() >= 1,
    ensures
        step_keeps(st, spec_exprs(st, known, es), known, n, occ_exprs(es, n)),
    decreases es, 0int,
{
    if es.len() == 0 {
        lemma_keeps_refl(st, known, n);
    } else {
        lemma_exprs_keeps(st, known, es.drop_last(), n);
        let s1 = spec_exprs(st, known, es.drop_last());
        lemma_expr_keeps(s1, known, es.last(), n);
        lemma_keeps_chain(st, s1, spec_expr(s1, known, es.last()), known, n, occ_exprs(es.drop_last(), n), occ_expr(es.last(), n));
    }
}

proof fn lemma_stmts_keeps(st: AnalysisState, known: Set<Seq<char>>, ss: Seq<ScriptStmt>, n: Seq<char>)
    requires
        st.scopes.len() >= 1,
    ensures
        step_keeps(st, spec_stmts(st, known, ss), known, n, occ_stmts(ss, n)),
    decreases ss, 0int,
{
    if ss.len() == 0 {
        lemma_keeps_refl(st, known, n);
    } else {
        lemma_stmts_keeps(st, known, ss.drop_last(), n);
        let s1 = spec_stmts(st, known, ss.drop_last());
        lemma_stmt_keeps(s1, known, ss.last(), n);
        lemma_keeps_chain(st, s1, spec_stmt(s1, known, ss.last()), known, n, occ_stmts(ss.drop_last(), n), occ_stmt(ss.last(), n));
    }
}

proof fn lemma_block_keeps(st: AnalysisState, known: Set<Seq<char>>, body: Seq<ScriptStmt>, n: Seq<char>)
    requires
        st.scopes.len() >= 1,
    ensures
        step_keeps(st, spec_block(st, known, body), known, n, occ_stmts(body, n)),
    decreases body, 1int,
{
    let p = st_push(st);
    lemma_push_keeps(st, known, n);
    lemma_stmts_keeps(p, known, body, n);
    let s2 = spec_stmts(p, known, body);
    lemma_pop_keeps(s2, known, n);
}

proof fn lemma_lvalue_keeps(st: AnalysisState, known: Set<Seq<char>>, e: ScriptExpr, n: Seq<char>)
    requires
        st.scopes.len() >= 1,
    ensures
        step_keeps(st, spec_lvalue(st, known, e), known, n, occ_lvalue(e, n)),
    decreases e, 1int,
{
    match e {
        ScriptExpr::Variable { name, qualified } => lemma_write_keeps(st, known, name@, n),
        ScriptExpr::Access(base) => lemma_lvalue_keeps(st, known, *base, n),
        ScriptExpr::Leaf => lemma_keeps_refl(st, known, n),
        _ => lemma_expr_keeps(st, known, e, n),
    }
}

proof fn lemma_assign_read_keeps(st: AnalysisState, known: Set<Seq<char>>, e: ScriptExpr, n: Seq<char>)
    requires
        st.scopes.len() >= 1,
    ensures
        step_keeps(st, spec_assign_read(st, known, e), known, n, occ_assign_read(e, n)),
    decreases e, 1int,
{
    match e {
        ScriptExpr::Variable { name, qualified } => lemma_read_keeps(st, known, name@, n),
        ScriptExpr::Access(base) => lemma_assign_read_keeps(st, known, *base, n),
        ScriptExpr::Leaf => lemma_keeps_refl(st, known, n),
        _ => lemma_expr_keeps(st, known, e, n),
    }
}

proof fn lemma_cases_keeps(st: AnalysisState, known: Set<Seq<char>>, cases: Seq<(ScriptExpr, ScriptExpr)>, n: Seq<char>)
    requires
        st.scopes.len() >= 1,
    ensures
        step_keeps(st, spec_cases(st, known, cases), known, n, occ_cases(cases, n)),
    decreases cases, 0int,
{
    if cases.len() == 0 {
        lemma_keeps_refl(st, known, n);
    } else {
        lemma_cases_keeps(st, known, cases.drop_last(), n);
        let s1 = spec_cases(st, known, cases.drop_last());
        lemma_expr_keeps(s1, known, cases.last().0, n);
        let s2 = spec_expr(s1, known, cases.last().0);
        lemma_expr_keeps(s2, known, cases.last().1, n);
        let s3 = spec_expr(s2, known, cases.last().1);
        lemma_keeps_chain(s1, s2, s3, known, n, occ_expr(cases.last().0, n), occ_expr(cases.last().1, n));
        lemma_keeps_chain(st, s1, s3, known, n, occ_cases(cases.drop_last(), n), occ_or(occ_expr(cases.last().0, n), occ_expr(cases.last().1, n)));
    }
}

proof fn lemma_stmt_keeps(st: AnalysisState, known: Set<Seq<char>>, s: ScriptStmt, n: Seq<char>)
    requires
        st.scopes.len() >= 1,
    ensures
        step_keeps(st, spec_stmt(st, known, s), known, n, occ_stmt(s, n)),
    decreases s, 0int,
{
    match s {
        ScriptStmt::Noop => lemma_keeps_refl(st, known, n),
        ScriptStmt::Var { name, init } => {
            lemma_expr_keeps(st, known, init, n);
            let s1 = spec_expr(st, known, init);
            lemma_define_keeps(s1, known, name@, n);
            lemma_keeps_chain(st, s1, st_define(s1, name@), known, n, occ_expr(init, n), Occurs { read: false, write: false, decl: name@ == n });
        },
        ScriptStmt::If { cond, body, branch } => {
            lemma_expr_keeps(st, known, cond, n);
            let s1 = spec_expr(st, known, cond);
            lemma_block_keeps(s1, known, body@, n);
            let s2 = spec_block(s1, known, body@);
            lemma_block_keeps(s2, known, branch@, n);
            let s3 = spec_block(s2, known, branch@);
            lemma_keeps_chain(s1, s2, s3, known, n, occ_stmts(body@, n), occ_stmts(branch@, n));
            lemma_keeps_chain(st, s1, s3, known, n, occ_expr(cond, n), occ_or(occ_stmts(body@, n), occ_stmts(branch@, n)));
        },
        ScriptStmt::Switch { expr, cases } => {
            lemma_expr_keeps(st, known, expr, n);
            let s1 = spec_expr(st, known, expr);
            lemma_cases_keeps(s1, known, cases@, n);
            lemma_keeps_chain(st, s1, spec_cases(s1, known, cases@), known, n, occ_expr(expr, n), occ_cases(cases@, n));
        },
        ScriptStmt::While { cond, body } => {
            lemma_expr_keeps(st, known, cond, n);
            let s1 = spec_expr(st, known, cond);
            lemma_block_keeps(s1, known, body@, n);
            lemma_keeps_chain(st, s1, spec_block(s1, known, body@), known, n, occ_expr(cond, n), occ_stmts(body@, n));
        },
        ScriptStmt::For { var, counter, iter, body } => {
            lemma_expr_keeps(st, known, iter, n);
            let s0 = spec_expr(st, known, iter);
            let p = st_push(s0);
            lemma_push_keeps(s0, known, n);
            let s1 = st_define(p, var@);
            lemma_define_keeps(p, known, var@, n);
            let s2 = match counter {
                Some(c) => st_define(s1, c@),
                None => s1,
            };
            match counter {
                Some(c) => {
                    lemma_define_keeps(s1, known, c@, n);
                },
                None => {
                    lemma_keeps_refl(s1, known, n);
                },
            }
            lemma_block_keeps(s2, known, body@, n);
            let s3 = spec_block(s2, known, body@);
            lemma_pop_keeps(s3, known, n);
            if !st_is_local(st, n) && !occ_stmt(s, n).decl {
                assert(!st_is_local(s0, n));
                assert(!st_is_local(p, n));
                assert(!st_is_local(s1, n));
                assert(!st_is_local(s2, n));
            }
        },
        ScriptStmt::Assignment { lhs, rhs, op_assign } => {
            lemma_lvalue_keeps(st, known, lhs, n);
            let s1 = spec_lvalue(st, known, lhs);
            lemma_expr_keeps(s1, known, rhs, n);
            let s2 = spec_expr(s1, known, rhs);
            lemma_keeps_chain(st, s1, s2, known, n, occ_lvalue(lhs, n), occ_expr(rhs, n));
            if op_assign {
                lemma_assign_read_keeps(s2, known, lhs, n);
                lemma_keeps_chain(st, s2, spec_assign_read(s2, known, lhs), known, n, occ_or(occ_lvalue(lhs, n), occ_expr(rhs, n)), occ_assign_read(lhs, n));
            } else {
                lemma_keeps_refl(s2, known, n);
                lemma_keeps_chain(st, s2, s2, known, n, occ_or(occ_lvalue(lhs, n), occ_expr(rhs, n)), occ_none());
            }
        },
        ScriptStmt::FnCall(args) => lemma_exprs_keeps(st, known, args@, n),
        ScriptStmt::Block(body) => lemma_block_keeps(st, known, body@, n),
        ScriptStmt::TryCatch { body, catch_var, branch } => {
            lemma_block_keeps(st, known, body@, n);
            let s0 = spec_block(st, known, body@);
            let p = st_push(s0);
            lemma_push_keeps(s0, known, n);
            let s1 = match catch_var {
                Some(c) => st_define(p, c@),
                None => p,
            };
            match catch_var {
                Some(c) => {
                    lemma_define_keeps(p, known, c@, n);
                },
                None => {
                    lemma_keeps_refl(p, known, n);
                },
            }
            lemma_block_keeps(s1, known, branch@, n);
            let s2 = spec_block(s1, known, branch@);
            lemma_pop_keeps(s2, known, n);
            if !st_is_local(st, n) && !occ_stmt(s, n).decl {
                assert(!st_is_local(s0, n));
                assert(!st_is_local(p, n));
                assert(!st_is_local(s1, n));
            }
        },
        ScriptStmt::Expr(e) => lemma_expr_keeps(st, known, e, n),
        ScriptStmt::Exit(v) => match v {
            Some(e) => lemma_expr_keeps(st, known, e, n),
            None => lemma_keeps_refl(st, known, n),
        },
        ScriptStmt::Import(e) => lemma_expr_keeps(st, known, e, n),
        ScriptStmt::Other => lemma_keeps_refl(st, known, n),
    }
}

/// The analysis misses no use of a module var: when a known var `n` is read
/// (or written) anywhere in the statements, at any depth (conditions, loop
/// and branch bodies, blocks, call arguments, switch cases, assignment
/// targets), and no `let`, loop variable or caught error in them declares
/// `n`, the analysis reports `n` among the vars met and reports a read (or a
/// write) of a module var.
pub proof fn law_analysis_reports_every_use(stmts: Seq<ScriptStmt>, known: Set<Seq<char>>, n: Seq<char>)
    requires
        known.contains(n),
        !occ_stmts(stmts, n).decl,
    ensures
        occ_stmts(stmts, n).read ==> spec_stmts(spec_initial_state(), known, stmts).refs.contains(n)
            && spec_stmts(spec_initial_state(), known, stmts).reads,
        occ_stmts(stmts, n).write ==> spec_stmts(spec_initial_state(), known, stmts).refs.contains(n)
            && spec_stmts(spec_initial_state(), known, stmts).writes,
{
    let st = spec_initial_state();
    assert(!st_is_local(st, n)) by {
        assert forall|i: int| 0 <= i < st.scopes.len() implies !(#[trigger] st.scopes[i]).contains(n) by {
            assert(st.scopes[i] == Set::<Seq<char>>::empty());
        }
    }
    lemma_stmts_keeps(st, known, stmts, n);
}

} // verus!
