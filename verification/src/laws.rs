//! Properties that hold across the passes of the compiler.
use vstd::prelude::*;
use crate::names::{
    lemma_skip_quoted_lenient_bounds, spec_lower_from, spec_resolved_var_placeholder,
    spec_resolved_var_prefix, spec_runtime_global_name, spec_skip_quoted_lenient,
};
use crate::expr::analysis::{
    AnalysisState, ScriptExpr, ScriptStmt, spec_assign_read, spec_block, spec_cases, spec_expr,
    spec_exprs, spec_initial_state, spec_lvalue, spec_stmt, spec_stmts,
};
use crate::const_eval::{
    ConstLookup, spec_digits_end, spec_digits_value, spec_parse_const_value, spec_parse_ident,
    spec_parse_number, spec_parse_path, spec_parse_value, spec_path_rest, spec_skip_ws,
};
use crate::const_value::{ConstView, spec_ascii_debug_body, spec_ascii_debug_escape, spec_dec_digits, spec_rhai_literal};
use crate::const_eval::{spec_parse_string, spec_string_body, spec_unescape};
use crate::errors::DeclaredType;
use crate::expr::template::SegmentView;
use crate::lower::{
    InstrView, spec_block_len, spec_lower_block, spec_lower_options, spec_lower_stmt,
    spec_options_len, spec_stmt_len,
};
use crate::resolve::{MemberSearchKind, ResolverView, spec_literal_key};
use crate::semantic::{SemanticFunction, SemanticModule, SemanticScript, StmtView};
use crate::assemble::{
    DeclView, spec_add_functions, spec_add_scripts, spec_add_vars, spec_collect, spec_empty_decls,
    spec_flat_scripts, spec_strings,
};
use crate::names::spec_qualified_member_name;
use crate::expr::scan::spec_ident_end;
use crate::text::{spec_find_char, spec_is_ascii_digit, spec_is_whitespace, spec_starts_at};
use crate::binding::{spec_next_seed, spec_seed_available, spec_seed_reserved};
use crate::env::ExpandEnv;
use crate::expr::normalize::{lemma_normalize_stable, spec_normalize_from};
use crate::errors::ScriptLangError;
use crate::form::{Form, FormField, FormValue, ValueView, spec_child_forms, spec_fields_deep, spec_find_field, spec_form_deep, spec_value_deep};
use crate::session::{spec_entry_session_module, spec_is_reserved_module};

verus! {

/// The first `c` at or after `from` is at `k` when `k` holds `c` and
/// nothing between does.
pub proof fn lemma_find_char_first(s: Seq<char>, from: int, k: int, c: char)
    requires
        0 <= from <= k < s.len(),
        s[k] == c,
        forall|j: int| from <= j < k ==> s[j] != c,
    ensures
        spec_find_char(s, from, c) == Some(k),
    decreases k - from,
{
    if from < k {
        lemma_find_char_first(s, from + 1, k, c);
    }
}

proof fn lemma_lower_unchanged_from(s: Seq<char>, i: int)
    requires
        0 <= i <= s.len(),
        forall|j: int| 0 <= j < s.len() ==> !spec_starts_at(s, j, spec_resolved_var_prefix()),
        forall|j: int| 0 <= j < s.len() ==> (#[trigger] s[j] as u32) < 0x80,
    ensures
        spec_lower_from(s, i) == s.subrange(i, s.len() as int),
    decreases s.len() - i,
{
    if i < s.len() {
        if s[i] == '"' || s[i] == '\'' {
            let end = spec_skip_quoted_lenient(s, i + 1, s[i]);
            lemma_skip_quoted_lenient_bounds(s, i + 1, s[i]);
            lemma_lower_unchanged_from(s, end);
            assert(s.subrange(i, end) + s.subrange(end, s.len() as int) =~= s.subrange(i, s.len() as int));
        } else {
            assert(!spec_starts_at(s, i, spec_resolved_var_prefix()));
            assert((s[i] as u32) < 0x80);
            lemma_lower_unchanged_from(s, i + 1);
            assert(seq![s[i]] + s.subrange(i + 1, s.len() as int) =~= s.subrange(i, s.len() as int));
        }
    }
}

/// Lowering leaves ASCII text that holds no resolved var placeholder
/// unchanged.
pub proof fn law_lowering_without_placeholders_is_identity(s: Seq<char>)
    requires
        forall|j: int| 0 <= j < s.len() ==> !spec_starts_at(s, j, spec_resolved_var_prefix()),
        forall|j: int| 0 <= j < s.len() ==> (#[trigger] s[j] as u32) < 0x80,
    ensures
        spec_lower_from(s, 0) == s,
{
    lemma_lower_unchanged_from(s, 0);
    assert(s.subrange(0, s.len() as int) =~= s);
}

/// A resolved var placeholder lowers to the runtime global name of the var
/// it names, when that name holds no `)`.
pub proof fn law_placeholder_lowers_to_global(q: Seq<char>)
    requires
        !q.contains(')'),
    ensures
        spec_lower_from(spec_resolved_var_placeholder(q), 0) == spec_runtime_global_name(q),
{
    let p = spec_resolved_var_prefix();
    let s = spec_resolved_var_placeholder(q);
    let start = p.len() as int;
    let close = start + q.len();
    assert(s.subrange(0, start) =~= p);
    assert(spec_starts_at(s, 0, p));
    assert forall|j: int| start <= j < close implies s[j] != ')' by {
        assert(s[j] == q[j - start]);
    }
    assert(s[close] == ')');
    lemma_find_char_first(s, start, close, ')');
    assert(s.subrange(start, close) =~= q);
    assert(spec_lower_from(s, close + 1) =~= Seq::<char>::empty());
    assert(spec_runtime_global_name(q) + Seq::<char>::empty() =~= spec_runtime_global_name(q));
}

/// Every var the state records is known.
pub open spec fn spec_refs_known(st: AnalysisState, known: Set<Seq<char>>) -> bool {
    forall|k: Seq<char>| st.refs.contains(k) ==> known.contains(k)
}

pub proof fn lemma_expr_refs_known(st: AnalysisState, known: Set<Seq<char>>, e: ScriptExpr)
    requires
        spec_refs_known(st, known),
    ensures
        spec_refs_known(spec_expr(st, known, e), known),
    decreases e, 0int,
{
    match e {
        ScriptExpr::Items(items) => lemma_exprs_refs_known(st, known, items@),
        ScriptExpr::Block(body) => lemma_block_refs_known(st, known, body@),
        ScriptExpr::Access(base) => lemma_expr_refs_known(st, known, *base),
        _ => {},
    }
}

pub proof fn lemma_exprs_refs_known(st: AnalysisState, known: Set<Seq<char>>, es: Seq<ScriptExpr>)
    requires
        spec_refs_known(st, known),
    ensures
        spec_refs_known(spec_exprs(st, known, es), known),
    decreases es, 0int,
{
    if es.len() > 0 {
        lemma_exprs_refs_known(st, known, es.drop_last());
        lemma_expr_refs_known(spec_exprs(st, known, es.drop_last()), known, es.last());
    }
}

pub proof fn lemma_block_refs_known(st: AnalysisState, known: Set<Seq<char>>, body: Seq<ScriptStmt>)
    requires
        spec_refs_known(st, known),
    ensures
        spec_refs_known(spec_block(st, known, body), known),
    decreases body, 1int,
{
    let pushed = AnalysisState { scopes: st.scopes.push(Set::empty()), ..st };
    lemma_stmts_refs_known(pushed, known, body);
}

pub proof fn lemma_stmts_refs_known(st: AnalysisState, known: Set<Seq<char>>, body: Seq<ScriptStmt>)
    requires
        spec_refs_known(st, known),
    ensures
        spec_refs_known(spec_stmts(st, known, body), known),
    decreases body, 0int,
{
    if body.len() > 0 {
        lemma_stmts_refs_known(st, known, body.drop_last());
        lemma_stmt_refs_known(spec_stmts(st, known, body.drop_last()), known, body.last());
    }
}

pub proof fn lemma_target_refs_known(st: AnalysisState, known: Set<Seq<char>>, e: ScriptExpr)
    requires
        spec_refs_known(st, known),
    ensures
        spec_refs_known(spec_lvalue(st, known, e), known),
        spec_refs_known(spec_assign_read(st, known, e), known),
    decreases e, 1int,
{
    match e {
        ScriptExpr::Access(base) => lemma_target_refs_known(st, known, *base),
        ScriptExpr::Variable { .. } => {},
        ScriptExpr::Leaf => {},
        _ => lemma_expr_refs_known(st, known, e),
    }
}

pub proof fn lemma_cases_refs_known(st: AnalysisState, known: Set<Seq<char>>, cases: Seq<(ScriptExpr, ScriptExpr)>)
    requires
        spec_refs_known(st, known),
    ensures
        spec_refs_known(spec_cases(st, known, cases), known),
    decreases cases, 0int,
{
    if cases.len() > 0 {
        lemma_cases_refs_known(st, known, cases.drop_last());
        let s1 = spec_cases(st, known, cases.drop_last());
        lemma_expr_refs_known(s1, known, cases.last().0);
        lemma_expr_refs_known(spec_expr(s1, known, cases.last().0), known, cases.last().1);
    }
}

pub proof fn lemma_stmt_refs_known(st: AnalysisState, known: Set<Seq<char>>, s: ScriptStmt)
    requires
        spec_refs_known(st, known),
    ensures
        spec_refs_known(spec_stmt(st, known, s), known),
    decreases s, 0int,
{
    match s {
        ScriptStmt::Var { name, init } => lemma_expr_refs_known(st, known, init),
        ScriptStmt::If { cond, body, branch } => {
            lemma_expr_refs_known(st, known, cond);
            let s1 = spec_expr(st, known, cond);
            lemma_block_refs_known(s1, known, body@);
            lemma_block_refs_known(spec_block(s1, known, body@), known, branch@);
        },
        ScriptStmt::Switch { expr, cases } => {
            lemma_expr_refs_known(st, known, expr);
            lemma_cases_refs_known(spec_expr(st, known, expr), known, cases@);
        },
        ScriptStmt::While { cond, body } => {
            lemma_expr_refs_known(st, known, cond);
            lemma_block_refs_known(spec_expr(st, known, cond), known, body@);
        },
        ScriptStmt::For { var, counter, iter, body } => {
            lemma_expr_refs_known(st, known, iter);
            let s0 = spec_expr(st, known, iter);
            let s1 = AnalysisState { scopes: s0.scopes.push(Set::empty()), ..s0 };
            let s1 = AnalysisState { scopes: s1.scopes.update(s1.scopes.len() - 1, s1.scopes.last().insert(var@)), ..s1 };
            let s2 = match counter {
                Some(c) => AnalysisState { scopes: s1.scopes.update(s1.scopes.len() - 1, s1.scopes.last().insert(c@)), ..s1 },
                None => s1,
            };
            lemma_block_refs_known(s2, known, body@);
        },
        ScriptStmt::Assignment { lhs, rhs, op_assign } => {
            lemma_target_refs_known(st, known, lhs);
            let s1 = spec_lvalue(st, known, lhs);
            lemma_expr_refs_known(s1, known, rhs);
            lemma_target_refs_known(spec_expr(s1, known, rhs), known, lhs);
        },
        ScriptStmt::FnCall(args) => lemma_exprs_refs_known(st, known, args@),
        ScriptStmt::Block(body) => lemma_block_refs_known(st, known, body@),
        ScriptStmt::TryCatch { body, catch_var, branch } => {
            lemma_block_refs_known(st, known, body@);
            let b = spec_block(st, known, body@);
            let s1 = AnalysisState { scopes: b.scopes.push(Set::empty()), ..b };
            let s2 = match catch_var {
                Some(c) => AnalysisState { scopes: s1.scopes.update(s1.scopes.len() - 1, s1.scopes.last().insert(c@)), ..s1 },
                None => s1,
            };
            lemma_block_refs_known(s2, known, branch@);
        },
        ScriptStmt::Expr(e) => lemma_expr_refs_known(st, known, e),
        ScriptStmt::Exit(v) => {
            if let Some(e) = v {
                lemma_expr_refs_known(st, known, e);
            }
        },
        ScriptStmt::Import(e) => lemma_expr_refs_known(st, known, e),
        _ => {},
    }
}

/// The analysis reports only known vars: whatever the statements, every
/// var it records as read or written is one of `known`.
pub proof fn law_analysis_reports_only_known_vars(stmts: Seq<ScriptStmt>, known: Set<Seq<char>>)
    ensures
        forall|k: Seq<char>| spec_stmts(spec_initial_state(), known, stmts).refs.contains(k) ==> known.contains(k),
{
    lemma_stmts_refs_known(spec_initial_state(), known, stmts);
}

/// Whether a jump target is inside `[lo, hi]`, or the head or exit of the
/// enclosing loop.
pub open spec fn spec_target_ok(t: nat, lo: int, hi: int, ctx: Option<(int, int)>) -> bool {
    (lo <= t <= hi) || (ctx matches Some((h, x)) && (t == h || t == x))
}

/// Whether every jump and choice branch of `code` targets `[lo, hi]` or the
/// enclosing loop's head or exit.
pub open spec fn spec_jumps_ok(code: Seq<InstrView>, lo: int, hi: int, ctx: Option<(int, int)>) -> bool {
    forall|i: int| 0 <= i < code.len() ==> match #[trigger] code[i] {
        InstrView::Jump { target_pc } => spec_target_ok(target_pc, lo, hi, ctx),
        InstrView::JumpIfFalse { target_pc } => spec_target_ok(target_pc, lo, hi, ctx),
        InstrView::BuildChoice { options, .. } => forall|j: int| 0 <= j < options.len() ==> lo <= #[trigger] options[j].1 <= hi,
        _ => true,
    }
}

pub proof fn lemma_jumps_concat(a: Seq<InstrView>, b: Seq<InstrView>, lo: int, hi: int, ctx: Option<(int, int)>)
    requires
        spec_jumps_ok(a, lo, hi, ctx),
        spec_jumps_ok(b, lo, hi, ctx),
    ensures
        spec_jumps_ok(a + b, lo, hi, ctx),
{
    assert forall|i: int| 0 <= i < (a + b).len() implies match #[trigger] (a + b)[i] {
        InstrView::Jump { target_pc } => spec_target_ok(target_pc, lo, hi, ctx),
        InstrView::JumpIfFalse { target_pc } => spec_target_ok(target_pc, lo, hi, ctx),
        InstrView::BuildChoice { options, .. } => forall|j: int| 0 <= j < options.len() ==> lo <= #[trigger] options[j].1 <= hi,
        _ => true,
    } by {
        if i < a.len() {
            assert((a + b)[i] == a[i]);
        } else {
            assert((a + b)[i] == b[i - a.len()]);
        }
    }
}

pub proof fn lemma_jumps_widen(code: Seq<InstrView>, lo: int, hi: int, lo2: int, hi2: int, ctx: Option<(int, int)>, ctx2: Option<(int, int)>)
    requires
        spec_jumps_ok(code, lo, hi, ctx),
        lo2 <= lo,
        hi <= hi2,
        ctx is None || ctx == ctx2 || (ctx matches Some((h, x)) && lo2 <= h <= hi2 && lo2 <= x <= hi2),
    ensures
        spec_jumps_ok(code, lo2, hi2, ctx2),
{
    assert forall|i: int| 0 <= i < code.len() implies match #[trigger] code[i] {
        InstrView::Jump { target_pc } => spec_target_ok(target_pc, lo2, hi2, ctx2),
        InstrView::JumpIfFalse { target_pc } => spec_target_ok(target_pc, lo2, hi2, ctx2),
        InstrView::BuildChoice { options, .. } => forall|j: int| 0 <= j < options.len() ==> lo2 <= #[trigger] options[j].1 <= hi2,
        _ => true,
    } by {
        match code[i] {
            InstrView::BuildChoice { options, .. } => {
                assert forall|j: int| 0 <= j < options.len() implies lo2 <= #[trigger] options[j].1 <= hi2 by {}
            },
            _ => {},
        }
    }
}

pub proof fn lemma_lower_stmt_jumps(st: StmtView, pc: int, ctx: Option<(int, int)>, locals: Seq<Seq<char>>)
    requires
        0 <= pc,
        ctx matches Some((h, x)) ==> 0 <= h && 0 <= x,
    ensures
        spec_lower_stmt(st, pc, ctx, locals) matches Ok((code, _)) ==> code.len() == spec_stmt_len(st)
            && spec_jumps_ok(code, pc, pc + spec_stmt_len(st), ctx),
    decreases st, 1nat,
{
    match st {
        StmtView::While { when, skip_loop_control_capture, body } => {
            let exit = pc + 3 + spec_block_len(body);
            let inner = if skip_loop_control_capture { ctx } else { Some((pc, exit)) };
            lemma_lower_block_jumps(body, pc + 2, inner, locals);
            if let Ok((code, l2)) = spec_lower_block(body, pc + 2, inner, locals) {
                let head = seq![InstrView::EvalCond { expr: crate::names::spec_lower_from(when, 0) }, InstrView::JumpIfFalse { target_pc: exit as nat }];
                let tail = seq![InstrView::Jump { target_pc: pc as nat }];
                assert(spec_jumps_ok(head, pc, exit, ctx)) by {
                    assert forall|i: int| 0 <= i < head.len() implies match #[trigger] head[i] {
                        InstrView::Jump { target_pc } => spec_target_ok(target_pc, pc, exit, ctx),
                        InstrView::JumpIfFalse { target_pc } => spec_target_ok(target_pc, pc, exit, ctx),
                        InstrView::BuildChoice { options, .. } => forall|j: int| 0 <= j < options.len() ==> pc <= #[trigger] options[j].1 <= exit,
                        _ => true,
                    } by {}
                }
                assert(spec_jumps_ok(tail, pc, exit, ctx)) by {
                    assert forall|i: int| 0 <= i < tail.len() implies match #[trigger] tail[i] {
                        InstrView::Jump { target_pc } => spec_target_ok(target_pc, pc, exit, ctx),
                        InstrView::JumpIfFalse { target_pc } => spec_target_ok(target_pc, pc, exit, ctx),
                        InstrView::BuildChoice { options, .. } => forall|j: int| 0 <= j < options.len() ==> pc <= #[trigger] options[j].1 <= exit,
                        _ => true,
                    } by {}
                }
                lemma_jumps_widen(code, pc + 2, pc + 2 + spec_block_len(body), pc, exit, inner, ctx);
                lemma_jumps_concat(head, code, pc, exit, ctx);
                lemma_jumps_concat(head + code, tail, pc, exit, ctx);
            }
        },
        StmtView::Choice { prompt, options } => {
            let join = pc + 1 + spec_options_len(options);
            lemma_lower_options_jumps(options, pc + 1, join, ctx, locals);
            if let Ok((code, branches, l2)) = spec_lower_options(options, pc + 1, join, ctx, locals) {
                let first = seq![InstrView::BuildChoice {
                    prompt: match prompt {
                        Some(p) => Some(crate::lower::spec_lower_text(p)),
                        None => None,
                    },
                    options: branches,
                }];
                assert(spec_jumps_ok(first, pc, join, ctx)) by {
                    assert forall|i: int| 0 <= i < first.len() implies match #[trigger] first[i] {
                        InstrView::Jump { target_pc } => spec_target_ok(target_pc, pc, join, ctx),
                        InstrView::JumpIfFalse { target_pc } => spec_target_ok(target_pc, pc, join, ctx),
                        InstrView::BuildChoice { options, .. } => forall|j: int| 0 <= j < options.len() ==> pc <= #[trigger] options[j].1 <= join,
                        _ => true,
                    } by {}
                }
                lemma_jumps_widen(code, pc + 1, join, pc, join, ctx, ctx);
                lemma_jumps_concat(first, code, pc, join, ctx);
            }
        },
        _ => {
            if let Ok((code, _)) = spec_lower_stmt(st, pc, ctx, locals) {
                assert(spec_jumps_ok(code, pc, pc + 1, ctx)) by {
                    assert forall|i: int| 0 <= i < code.len() implies match #[trigger] code[i] {
                        InstrView::Jump { target_pc } => spec_target_ok(target_pc, pc, pc + 1, ctx),
                        InstrView::JumpIfFalse { target_pc } => spec_target_ok(target_pc, pc, pc + 1, ctx),
                        InstrView::BuildChoice { options, .. } => forall|j: int| 0 <= j < options.len() ==> pc <= #[trigger] options[j].1 <= pc + 1,
                        _ => true,
                    } by {
                        assert(i == 0);
                        match st {
                            StmtView::Break => {
                                assert(ctx is Some);
                            },
                            StmtView::Continue => {
                                assert(ctx is Some);
                            },
                            _ => {},
                        }
                    }
                }
            }
        },
    }
}

pub proof fn lemma_lower_block_jumps(stmts: Seq<StmtView>, pc: int, ctx: Option<(int, int)>, locals: Seq<Seq<char>>)
    requires
        0 <= pc,
        ctx matches Some((h, x)) ==> 0 <= h && 0 <= x,
    ensures
        spec_lower_block(stmts, pc, ctx, locals) matches Ok((code, _)) ==> code.len() == spec_block_len(stmts)
            && spec_jumps_ok(code, pc, pc + spec_block_len(stmts), ctx),
    decreases stmts, 0nat,
{
    if stmts.len() > 0 {
        lemma_lower_stmt_jumps(stmts[0], pc, ctx, locals);
        if let Ok((code, l2)) = spec_lower_stmt(stmts[0], pc, ctx, locals) {
            let next = pc + spec_stmt_len(stmts[0]);
            lemma_lower_block_jumps(stmts.drop_first(), next, ctx, l2);
            if let Ok((rest, l3)) = spec_lower_block(stmts.drop_first(), next, ctx, l2) {
                let hi = pc + spec_block_len(stmts);
                lemma_jumps_widen(code, pc, next, pc, hi, ctx, ctx);
                lemma_jumps_widen(rest, next, next + spec_block_len(stmts.drop_first()), pc, hi, ctx, ctx);
                lemma_jumps_concat(code, rest, pc, hi, ctx);
            }
        }
    } else {
        assert(spec_jumps_ok(Seq::<InstrView>::empty(), pc, pc, ctx));
    }
}

pub proof fn lemma_lower_options_jumps(
    opts: Seq<(Seq<SegmentView>, Seq<StmtView>)>,
    pc: int,
    join: int,
    ctx: Option<(int, int)>,
    locals: Seq<Seq<char>>,
)
    requires
        0 <= pc,
        pc + spec_options_len(opts) <= join,
        ctx matches Some((h, x)) ==> 0 <= h && 0 <= x,
    ensures
        spec_lower_options(opts, pc, join, ctx, locals) matches Ok((code, branches, _)) ==> code.len()
            == spec_options_len(opts) && spec_jumps_ok(code, pc, join, ctx) && branches.len() == opts.len()
            && forall|j: int| 0 <= j < branches.len() ==> pc <= #[trigger] branches[j].1 <= join,
    decreases opts, 0nat,
{
    if opts.len() > 0 {
        lemma_lower_block_jumps(opts[0].1, pc, ctx, locals);
        if let Ok((code, l2)) = spec_lower_block(opts[0].1, pc, ctx, locals) {
            let next = pc + spec_block_len(opts[0].1) + 1;
            lemma_lower_options_jumps(opts.drop_first(), next, join, ctx, l2);
            if let Ok((rest, branches, l3)) = spec_lower_options(opts.drop_first(), next, join, ctx, l2) {
                let jump = seq![InstrView::Jump { target_pc: join as nat }];
                assert(spec_jumps_ok(jump, pc, join, ctx)) by {
                    assert forall|i: int| 0 <= i < jump.len() implies match #[trigger] jump[i] {
                        InstrView::Jump { target_pc } => spec_target_ok(target_pc, pc, join, ctx),
                        InstrView::JumpIfFalse { target_pc } => spec_target_ok(target_pc, pc, join, ctx),
                        InstrView::BuildChoice { options, .. } => forall|j: int| 0 <= j < options.len() ==> pc <= #[trigger] options[j].1 <= join,
                        _ => true,
                    } by {}
                }
                lemma_jumps_widen(code, pc, pc + spec_block_len(opts[0].1), pc, join, ctx, ctx);
                lemma_jumps_widen(rest, next, join, pc, join, ctx, ctx);
                lemma_jumps_concat(code, jump, pc, join, ctx);
                lemma_jumps_concat(code + jump, rest, pc, join, ctx);
                let all_b = seq![(crate::lower::spec_lower_text(opts[0].0), pc as nat)] + branches;
                assert forall|j: int| 0 <= j < all_b.len() implies pc <= #[trigger] all_b[j].1 <= join by {
                    if j > 0 {
                        assert(all_b[j] == branches[j - 1]);
                    }
                }
            }
        }
    } else {
        assert(spec_jumps_ok(Seq::<InstrView>::empty(), pc, join, ctx));
    }
}

/// Lowered control flow stays inside the code: when a script body lowers
/// without error, it has as many instructions as its statements call for,
/// and every jump and choice branch targets an instruction of it or the
/// point right after it.
pub proof fn law_lowered_jumps_stay_in_code(stmts: Seq<StmtView>, pc: int, locals: Seq<Seq<char>>)
    requires
        0 <= pc,
    ensures
        spec_lower_block(stmts, pc, None, locals) matches Ok((code, _)) ==> code.len() == spec_block_len(stmts)
            && spec_jumps_ok(code, pc, pc + code.len(), None),
{
    lemma_lower_block_jumps(stmts, pc, None, locals);
}

pub proof fn lemma_search_imports_in(r: ResolverView, kind: MemberSearchKind, name: Seq<char>, n: int)
    requires
        n <= r.scope.imports.len(),
    ensures
        r.spec_search_imports(kind, name, n) matches Some(m) ==> exists|i: int| 0 <= i < n && r.scope.imports[i] == m,
    decreases n,
{
    if n > 0 {
        lemma_search_imports_in(r, kind, name, n - 1);
    }
}

/// A var or function written by its short name resolves to a member of the
/// current module or of one of its imports, never of another module.
pub proof fn law_short_ref_is_current_or_imported(r: ResolverView, kind: MemberSearchKind, name: Seq<char>)
    ensures
        r.spec_short_ref(kind, name) matches Ok(Some(m)) ==> m == r.scope.current
            || exists|i: int| 0 <= i < r.scope.imports.len() && r.scope.imports[i] == m,
{
    lemma_search_imports_in(r, kind, name, r.scope.imports.len() as int);
}

/// A script or function literal that qualifies always names a module: its
/// qualified name holds a `.`.
pub proof fn law_literal_key_is_qualified(raw: Seq<char>, prefix: char, current: Seq<char>)
    ensures
        spec_literal_key(raw, prefix, current) matches Some(q) ==> q.contains('.'),
{
    reveal_strlit(".");
    if let Some(q) = spec_literal_key(raw, prefix, current) {
        if !raw.drop_first().contains('.') {
            assert(q == current + "."@ + raw.drop_first());
            assert(q[current.len() as int] == '.');
        }
    }
}

pub proof fn lemma_digits_value_prefix(a: Seq<char>, b: Seq<char>, e: int)
    requires
        0 <= e <= a.len(),
    ensures
        spec_digits_value(a + b, 0, e) == spec_digits_value(a, 0, e),
    decreases e,
{
    if e > 0 {
        lemma_digits_value_prefix(a, b, e - 1);
        assert((a + b)[e - 1] == a[e - 1]);
    }
}

pub proof fn lemma_digits_value_shift(p: Seq<char>, t: Seq<char>, e: int)
    requires
        0 <= e <= t.len(),
    ensures
        spec_digits_value(p + t, p.len() as int, p.len() + e) == spec_digits_value(t, 0, e),
    decreases e,
{
    if e > 0 {
        lemma_digits_value_shift(p, t, e - 1);
        assert((p + t)[p.len() + e - 1] == t[e - 1]);
    }
}

pub proof fn lemma_dec_digits(m: nat)
    ensures
        spec_dec_digits(m).len() >= 1,
        forall|i: int| 0 <= i < spec_dec_digits(m).len() ==> spec_is_ascii_digit(#[trigger] spec_dec_digits(m)[i]),
        spec_digits_value(spec_dec_digits(m), 0, spec_dec_digits(m).len() as int) == m,
    decreases m,
{
    let t = spec_dec_digits(m);
    if m < 10 {
        assert(t[0] == (('0' as nat) + m) as char);
        assert(t[0] as int == '0' as int + m);
        assert(spec_digits_value(t, 0, 1) == 10 * spec_digits_value(t, 0, 0) + (t[0] as int - '0' as int));
    } else {
        let a = spec_dec_digits(m / 10);
        let c = (('0' as nat) + m % 10) as char;
        lemma_dec_digits(m / 10);
        assert(t == a + seq![c]);
        assert(c as int == '0' as int + m % 10);
        assert forall|i: int| 0 <= i < t.len() implies spec_is_ascii_digit(#[trigger] t[i]) by {
            if i < a.len() {
                assert(t[i] == a[i]);
            }
        }
        lemma_digits_value_prefix(a, seq![c], a.len() as int);
        assert(t[t.len() - 1] == c);
        assert(t.len() - 1 == a.len());
        assert(spec_digits_value(t, 0, a.len() as int) == m / 10);
        assert(spec_digits_value(t, 0, t.len() as int) == 10 * spec_digits_value(t, 0, a.len() as int) + (c as int - '0' as int));
        assert(m == 10 * (m / 10) + m % 10);
    }
}

pub proof fn lemma_digits_end_all(s: Seq<char>, j: int)
    requires
        0 <= j <= s.len(),
        forall|k: int| j <= k < s.len() ==> spec_is_ascii_digit(s[k]),
    ensures
        spec_digits_end(s, j) == s.len(),
    decreases s.len() - j,
{
    if j < s.len() {
        lemma_digits_end_all(s, j + 1);
    }
}

/// Rendering an integer const as a literal and parsing that literal back
/// gives the integer: the two agree on every `i64`, whatever the consts in
/// scope.
pub proof fn law_integer_literal_round_trip(n: i64, env: Map<Seq<char>, ConstView>, r: ResolverView, blocked: Set<Seq<char>>)
    ensures
        spec_parse_const_value(spec_rhai_literal(ConstView::Integer(n as int)), env, r, blocked, Some(DeclaredType::Int))
            == Ok::<ConstView, crate::errors::ErrorView>(ConstView::Integer(n as int)),
{
    let s = spec_rhai_literal(ConstView::Integer(n as int));
    let m: nat = if n < 0 { (-(n as int)) as nat } else { n as nat };
    let t = spec_dec_digits(m);
    lemma_dec_digits(m);
    let j: int = if n < 0 { 1 } else { 0 };
    if n < 0 {
        assert(s == seq!['-'] + t);
        lemma_digits_value_shift(seq!['-'], t, t.len() as int);
        assert forall|k: int| 1 <= k < s.len() implies spec_is_ascii_digit(s[k]) by {
            assert(s[k] == t[k - 1]);
        }
    } else {
        assert(s == t);
        assert(t.subrange(0, t.len() as int) =~= t);
    }
    lemma_digits_end_all(s, j);
    assert(!spec_is_whitespace(s[0]));
    assert(spec_skip_ws(s, 0) == 0);
    assert(spec_parse_number(s, 0) == Ok::<(ConstView, int), crate::errors::ErrorView>((ConstView::Integer(n as int), s.len() as int)));
    assert(spec_parse_value(s, 0, env, r, blocked) == Ok::<(ConstView, int), crate::errors::ErrorView>((ConstView::Integer(n as int), s.len() as int)));
    assert(spec_skip_ws(s, s.len() as int) == s.len());
}

/// Rendering a boolean const as a literal and parsing it back gives the
/// boolean, whatever the consts in scope.
pub proof fn law_bool_literal_round_trip(b: bool, env: Map<Seq<char>, ConstView>, r: ResolverView, blocked: Set<Seq<char>>)
    ensures
        spec_parse_const_value(spec_rhai_literal(ConstView::Bool(b)), env, r, blocked, Some(DeclaredType::Bool))
            == Ok::<ConstView, crate::errors::ErrorView>(ConstView::Bool(b)),
{
    reveal_strlit("true");
    reveal_strlit("false");
    let s = spec_rhai_literal(ConstView::Bool(b));
    let n = s.len() as int;
    assert(spec_skip_ws(s, 0) == 0);
    assert(spec_ident_end(s, n) == n);
    assert(spec_ident_end(s, n - 1) == n);
    assert(spec_ident_end(s, n - 2) == n);
    assert(spec_ident_end(s, n - 3) == n);
    if !b {
        assert(spec_ident_end(s, 1) == n);
    }
    assert(s.subrange(0, n) =~= s);
    assert(spec_parse_ident(s, 0) == Ok::<(Seq<char>, int), crate::errors::ErrorView>((s, n)));
    assert(spec_path_rest(s, n, seq![s]) == Ok::<(Seq<Seq<char>>, int), crate::errors::ErrorView>((seq![s], n)));
    assert(spec_parse_path(s, 0) == Ok::<(Seq<Seq<char>>, int), crate::errors::ErrorView>((seq![s], n)));
    if b {
        assert(s == "true"@);
    } else {
        assert(s == "false"@);
    }
    assert(spec_parse_value(s, 0, env, r, blocked) == Ok::<(ConstView, int), crate::errors::ErrorView>((ConstView::Bool(b), n)));
    assert(spec_skip_ws(s, n) == n);
}

/// Script ids are distinct and below the number of scripts.
pub open spec fn spec_ids_ok(d: DeclView) -> bool {
    &&& forall|q: Seq<char>| #[trigger] d.script_refs.contains_key(q) ==> d.script_refs[q] < d.script_count
    &&& forall|q1: Seq<char>, q2: Seq<char>|
        #[trigger] d.script_refs.contains_key(q1) && #[trigger] d.script_refs.contains_key(q2) && q1 != q2
            ==> d.script_refs[q1] != d.script_refs[q2]
}

pub proof fn lemma_functions_keep_ids(st: DeclView, m: Seq<char>, fs: Seq<SemanticFunction>)
    ensures
        spec_add_functions(st, m, fs) matches Ok(d) ==> d.script_refs == st.script_refs && d.script_count == st.script_count,
    decreases fs.len(),
{
    if fs.len() > 0 {
        let q = spec_qualified_member_name(m, fs[0].name@);
        if !st.functions.contains_key(q) {
            lemma_functions_keep_ids(
                DeclView {
                    globals: st.globals,
                    functions: st.functions.insert(q, (spec_strings(fs[0].param_names@), spec_lower_from(fs[0].body@, 0))),
                    script_refs: st.script_refs,
                    script_count: st.script_count,
                },
                m,
                fs.drop_first(),
            );
        }
    }
}

pub proof fn lemma_scripts_keep_ids_ok(st: DeclView, m: Seq<char>, ss: Seq<SemanticScript>)
    requires
        spec_ids_ok(st),
    ensures
        spec_add_scripts(st, m, ss) matches Ok(d) ==> spec_ids_ok(d),
    decreases ss.len(),
{
    if ss.len() > 0 {
        let q = spec_qualified_member_name(m, ss[0].name@);
        if !st.script_refs.contains_key(q) {
            let next = DeclView {
                globals: st.globals,
                functions: st.functions,
                script_refs: st.script_refs.insert(q, st.script_count),
                script_count: st.script_count + 1,
            };
            assert(spec_ids_ok(next)) by {
                assert forall|q1: Seq<char>, q2: Seq<char>|
                    #[trigger] next.script_refs.contains_key(q1) && #[trigger] next.script_refs.contains_key(q2) && q1 != q2
                    implies next.script_refs[q1] != next.script_refs[q2] by {
                    if q1 != q && q2 != q {
                        assert(st.script_refs.contains_key(q1) && st.script_refs.contains_key(q2));
                    } else if q1 == q {
                        assert(st.script_refs.contains_key(q2));
                    } else {
                        assert(st.script_refs.contains_key(q1));
                    }
                }
            }
            lemma_scripts_keep_ids_ok(next, m, ss.drop_first());
        }
    }
}

pub proof fn lemma_collect_keeps_ids_ok(st: DeclView, ms: Seq<SemanticModule>)
    requires
        spec_ids_ok(st),
    ensures
        spec_collect(st, ms) matches Ok(d) ==> spec_ids_ok(d),
    decreases ms.len(),
{
    if ms.len() > 0 {
        let m = ms[0];
        let s1 = spec_add_vars(st, m.name@, m.vars@);
        lemma_functions_keep_ids(s1, m.name@, m.functions@);
        if let Ok(s2) = spec_add_functions(s1, m.name@, m.functions@) {
            lemma_scripts_keep_ids_ok(s2, m.name@, m.scripts@);
            if let Ok(s3) = spec_add_scripts(s2, m.name@, m.scripts@) {
                lemma_collect_keeps_ids_ok(s3, ms.drop_first());
            }
        }
    }
}

/// Every script of an assembled program gets its own id, below the number
/// of scripts, so the boot script that follows them has an id no script
/// shares.
pub proof fn law_script_ids_are_distinct_and_in_range(ms: Seq<SemanticModule>)
    ensures
        spec_collect(spec_empty_decls(), ms) matches Ok(d) ==> {
            &&& d.script_count == spec_flat_scripts(ms).len()
            &&& spec_ids_ok(d)
        },
{
    crate::assemble::lemma_collect_count(spec_empty_decls(), ms);
    lemma_collect_keeps_ids_ok(spec_empty_decls(), ms);
}

/// Fresh names do not collide: two names `gensym` gives one invocation for
/// one prefix at different counts differ.
pub proof fn law_gensym_names_are_distinct(name: Seq<char>, seed: nat, prefix: Seq<char>, c1: nat, c2: nat)
    requires
        c1 != c2,
    ensures
        crate::quote::spec_gensym(name, seed, prefix, c1) != crate::quote::spec_gensym(name, seed, prefix, c2),
{
    let head = "__macro_"@ + crate::quote::spec_sanitize_macro_name(name) + "_"@ + spec_dec_digits(seed) + "_"@ + prefix + "_"@;
    let a = crate::quote::spec_gensym(name, seed, prefix, c1);
    let b = crate::quote::spec_gensym(name, seed, prefix, c2);
    assert(a == head + spec_dec_digits(c1));
    assert(b == head + spec_dec_digits(c2));
    lemma_dec_digits(c1);
    lemma_dec_digits(c2);
    if a == b {
        assert(a.skip(head.len() as int) =~= spec_dec_digits(c1));
        assert(b.skip(head.len() as int) =~= spec_dec_digits(c2));
        assert(spec_dec_digits(c1) == spec_dec_digits(c2));
    }
}

/// Within one module each macro invocation is numbered one more than the
/// invocation before it.
pub proof fn law_invocation_seeds_increase(before: ExpandEnv, after: ExpandEnv)
    requires
        spec_seed_available(before),
        spec_seed_reserved(before, after),
    ensures
        spec_next_seed(after) == spec_next_seed(before) + 1,
{
}

/// The values of a list of fields, one per field.
pub proof fn lemma_fields_deep_index(fs: Seq<FormField>)
    ensures
        spec_fields_deep(fs).len() == fs.len(),
        forall|i: int| 0 <= i < fs.len() ==> #[trigger] spec_fields_deep(fs)[i] == (fs[i].name@, spec_value_deep(fs[i].value)),
    decreases fs.len(),
{
    if fs.len() > 0 {
        lemma_fields_deep_index(fs.drop_last());
    }
}

/// The session module takes the reserved module name, so a program whose
/// modules pass the reserved-name check holds exactly one module of that
/// name once the session module is added.
pub proof fn law_session_module_is_reserved(f: Form, entry: Seq<char>)
    requires
        spec_form_deep(f) == spec_entry_session_module(entry),
    ensures
        spec_is_reserved_module(f),
{
    lemma_fields_deep_index(f.fields@);
    let fs = f.fields@;
    assert(spec_fields_deep(fs)[0] == (fs[0].name@, spec_value_deep(fs[0].value)));
    assert(fs[0].name@ == "name"@);
    assert(spec_find_field(fs, "name"@, 0) == Some(0int));
    match fs[0].value {
        FormValue::String(v) => {
            assert(spec_value_deep(fs[0].value) == ValueView::String(v@));
        },
        FormValue::Sequence(items) => {
            assert(spec_value_deep(fs[0].value) == ValueView::Sequence(crate::form::spec_items_deep(items@)));
        },
    }
    assert(f.head@ == spec_form_deep(f).head);
}

/// Normalizing expression text twice gives what normalizing it once gives:
/// text that normalization produced is left unchanged.
pub proof fn law_normalize_is_idempotent(s: Seq<char>, t: Seq<char>)
    requires
        spec_normalize_from(s, 0) == Ok::<Seq<char>, ScriptLangError>(t),
    ensures
        spec_normalize_from(t, 0) == Ok::<Seq<char>, ScriptLangError>(t),
{
    lemma_normalize_stable(s, 0);
}

/// Whether every character of the text is printable ASCII.
pub open spec fn spec_printable_ascii(s: Seq<char>) -> bool {
    forall|i: int| 0 <= i < s.len() ==> ' ' <= #[trigger] s[i] && s[i] <= '~'
}

/// Escaping text piece by piece is escaping the whole.
pub proof fn lemma_ascii_body_concat(a: Seq<char>, b: Seq<char>)
    ensures
        spec_ascii_debug_body(a + b) == spec_ascii_debug_body(a) + spec_ascii_debug_body(b),
    decreases b.len(),
{
    if b.len() == 0 {
        assert(a + b =~= a);
        assert(spec_ascii_debug_body(a) + spec_ascii_debug_body(b) =~= spec_ascii_debug_body(a));
    } else {
        lemma_ascii_body_concat(a, b.drop_last());
        assert((a + b).drop_last() =~= a + b.drop_last());
        assert((a + b).last() == b.last());
        assert(spec_ascii_debug_body(a) + spec_ascii_debug_body(b) =~= spec_ascii_debug_body(a) + spec_ascii_debug_body(
            b.drop_last(),
        ) + spec_ascii_debug_escape(b.last()));
    }
}

/// The escaped body of printable ASCII text, read back as the body of a
/// double-quoted string literal, is the text.
pub proof fn lemma_ascii_body_reads_back(pre: Seq<char>, s: Seq<char>)
    requires
        spec_printable_ascii(s),
    ensures
        spec_string_body(pre + spec_ascii_debug_body(s) + seq!['"'], pre.len() as int, '"') == Ok::<(Seq<char>, int), crate::errors::ErrorView>(
            (s, (pre.len() + spec_ascii_debug_body(s).len() + 1) as int),
        ),
    decreases s.len(),
{
    let t = pre + spec_ascii_debug_body(s) + seq!['"'];
    if s.len() == 0 {
        assert(spec_ascii_debug_body(s) =~= Seq::<char>::empty());
        assert(s =~= Seq::<char>::empty());
        assert(t[pre.len() as int] == '"');
    } else {
        let c = s[0];
        let rest = s.drop_first();
        assert(s =~= seq![c] + rest);
        lemma_ascii_body_concat(seq![c], rest);
        assert(seq![c].drop_last() =~= Seq::<char>::empty());
        assert(spec_ascii_debug_body(Seq::<char>::empty()) =~= Seq::<char>::empty());
        assert(spec_ascii_debug_body(seq![c]) =~= spec_ascii_debug_escape(c));
        let esc = spec_ascii_debug_escape(c);
        assert(spec_ascii_debug_body(s) == esc + spec_ascii_debug_body(rest));
        assert forall|i: int| 0 <= i < rest.len() implies ' ' <= #[trigger] rest[i] && rest[i] <= '~' by {
            assert(rest[i] == s[i + 1]);
        }
        let pre2 = pre + esc;
        assert(t =~= pre2 + spec_ascii_debug_body(rest) + seq!['"']);
        lemma_ascii_body_reads_back(pre2, rest);
        assert(spec_ascii_debug_body(s).len() == esc.len() + spec_ascii_debug_body(rest).len());
        assert(seq![c] + rest == s);
        assert(' ' <= c && c <= '~');
        if c == '"' || c == '\\' {
            assert(esc == seq!['\\', c]);
            assert(t[pre.len() as int] == '\\');
            assert(t[pre.len() as int + 1] == c);
            assert(spec_unescape(c) == c);
            assert(pre2.len() == pre.len() + 2);
            assert(spec_string_body(t, pre.len() as int, '"') == match spec_string_body(t, pre.len() as int + 2, '"') {
                Ok((x, e)) => Ok::<(Seq<char>, int), crate::errors::ErrorView>((seq![spec_unescape(t[pre.len() as int + 1])] + x, e)),
                Err(err) => Err(err),
            });
        } else {
            assert(esc == seq![c]);
            assert(t[pre.len() as int] == c);
            assert(pre2.len() == pre.len() + 1);
            assert(spec_string_body(t, pre.len() as int, '"') == match spec_string_body(t, pre.len() as int + 1, '"') {
                Ok((x, e)) => Ok::<(Seq<char>, int), crate::errors::ErrorView>((seq![t[pre.len() as int]] + x, e)),
                Err(err) => Err(err),
            });
        }
    }
}

/// A string of printable ASCII, rendered as a literal the way `{:?}`
/// renders it, reads back as the same string.
pub proof fn law_string_literal_round_trip(s: Seq<char>, env: Map<Seq<char>, ConstView>, r: ResolverView, blocked: Set<Seq<char>>)
    requires
        spec_printable_ascii(s),
    ensures
        spec_parse_const_value(seq!['"'] + spec_ascii_debug_body(s) + seq!['"'], env, r, blocked, Some(DeclaredType::String))
            == Ok::<ConstView, crate::errors::ErrorView>(ConstView::String(s)),
{
    let lit = seq!['"'] + spec_ascii_debug_body(s) + seq!['"'];
    lemma_ascii_body_reads_back(seq!['"'], s);
    assert(lit[0] == '"');
    assert(!spec_is_whitespace(lit[0]));
    assert(spec_skip_ws(lit, 0) == 0);
    assert(spec_parse_string(lit, 0) == Ok::<(Seq<char>, int), crate::errors::ErrorView>((s, lit.len() as int)));
    assert(spec_parse_value(lit, 0, env, r, blocked) == Ok::<(ConstView, int), crate::errors::ErrorView>((ConstView::String(s), lit.len() as int)));
    assert(spec_skip_ws(lit, lit.len() as int) == lit.len());
}

proof fn lemma_join_dots_front(a: Seq<char>, rest: Seq<Seq<char>>)
    requires
        rest.len() >= 1,
    ensures
        crate::const_eval::spec_join_dots(seq![a] + rest) == a + seq!['.'] + crate::const_eval::spec_join_dots(rest),
    decreases rest.len(),
{
    let all = seq![a] + rest;
    if rest.len() == 1 {
        assert(all.drop_last() =~= seq![a]);
        assert(all.last() == rest[0]);
        assert(seq![a][0] == a);
        assert(crate::const_eval::spec_join_dots(seq![a]) == a);
        assert(crate::const_eval::spec_join_dots(rest) == rest[0]);
        assert(crate::const_eval::spec_join_dots(all) == crate::const_eval::spec_join_dots(all.drop_last()) + seq!['.'] + all.last());
    } else {
        lemma_join_dots_front(a, rest.drop_last());
        assert(all.drop_last() =~= seq![a] + rest.drop_last());
        assert(all.last() == rest.last());
        assert(crate::const_eval::spec_join_dots(seq![a] + rest) =~= a + seq!['.'] + crate::const_eval::spec_join_dots(rest));
    }
}

/// Scanning a reference path splits the text it covers at its dots: the
/// segments, joined with `.`, are exactly that text, and each segment is an
/// identifier.
pub proof fn law_reference_path_splits_at_dots(s: Seq<char>, start: int)
    requires
        0 <= start < s.len(),
        crate::text::spec_is_ident_start(s[start]),
    ensures
        crate::const_eval::spec_join_dots(crate::expr::scan::spec_reference_path(s, start).1) == s.subrange(
            start,
            crate::expr::scan::spec_reference_path(s, start).0,
        ),
        forall|k: int| 0 <= k < crate::expr::scan::spec_reference_path(s, start).1.len() ==> crate::readback::spec_is_ident_text(
            #[trigger] crate::expr::scan::spec_reference_path(s, start).1[k],
        ),
    decreases s.len() - start,
{
    let e = spec_ident_end(s, start + 1);
    crate::expr::scan::lemma_ident_end(s, start + 1);
    let seg = s.subrange(start, e);
    assert forall|m: int| 1 <= m < seg.len() implies crate::text::spec_is_ident_continue(#[trigger] seg[m]) by {
        assert(seg[m] == s[start + m]);
    }
    assert(crate::readback::spec_is_ident_text(seg));
    if e + 1 < s.len() && s[e] == '.' && crate::text::spec_is_ident_start(s[e + 1]) {
        law_reference_path_splits_at_dots(s, e + 1);
        let rest = crate::expr::scan::spec_reference_path(s, e + 1);
        crate::expr::scan::lemma_reference_path(s, e + 1);
        lemma_join_dots_front(seg, rest.1);
        assert(s.subrange(start, rest.0) =~= seg + seq!['.'] + s.subrange(e + 1, rest.0));
        assert forall|k: int| 0 <= k < (seq![seg] + rest.1).len() implies crate::readback::spec_is_ident_text(
            #[trigger] (seq![seg] + rest.1)[k],
        ) by {
            if k > 0 {
                assert((seq![seg] + rest.1)[k] == rest.1[k - 1]);
            }
        }
    } else {
        assert(seq![seg][0] == seg);
    }
}

proof fn lemma_path_rest_reads(s: Seq<char>, i: int, acc: Seq<Seq<char>>, rest: Seq<Seq<char>>)
    requires
        0 <= i < s.len(),
        rest.len() >= 1,
        forall|k: int| 0 <= k < rest.len() ==> crate::readback::spec_is_ident_text(#[trigger] rest[k]),
        s[i] == '.',
        s.subrange(i + 1, s.len() as int) == crate::const_eval::spec_join_dots(rest),
    ensures
        crate::const_eval::spec_path_rest(s, i, acc) == Ok::<(Seq<Seq<char>>, int), crate::errors::ErrorView>(
            (acc + rest, s.len() as int),
        ),
    decreases rest.len(),
{
    let r0 = rest[0];
    assert(crate::readback::spec_is_ident_text(r0));
    let a = i + 1;
    let e = a + r0.len();
    let tail = s.subrange(a, s.len() as int);
    let t2 = rest.drop_first();
    assert(tail == crate::const_eval::spec_join_dots(rest));
    if rest.len() == 1 {
        assert(crate::const_eval::spec_join_dots(rest) == r0);
        assert(tail.len() == r0.len());
    } else {
        assert(rest =~= seq![r0] + t2);
        lemma_join_dots_front(r0, t2);
        assert(tail == r0 + seq!['.'] + crate::const_eval::spec_join_dots(t2));
    }
    assert(e <= s.len());
    assert forall|m: int| 0 <= m < r0.len() implies #[trigger] s[a + m] == r0[m] by {
        assert(s[a + m] == tail[m]);
    }
    assert forall|m: int| a + 1 <= m < e implies crate::text::spec_is_ident_continue(#[trigger] s[m]) by {
        assert(s[a + (m - a)] == r0[m - a]);
    }
    if rest.len() > 1 {
        assert(s[e] == tail[r0.len() as int]);
        assert(s[e] == '.');
    } else {
        assert(e == s.len());
    }
    crate::readback::lemma_ident_end_at(s, a + 1, e);
    assert(s[a + 0] == r0[0]);
    assert(s.subrange(a, e) =~= r0);
    assert(crate::const_eval::spec_parse_ident(s, a) == Ok::<(Seq<char>, int), crate::errors::ErrorView>((r0, e)));
    if rest.len() == 1 {
        assert(acc.push(r0) =~= acc + rest);
    } else {
        assert forall|k: int| 0 <= k < t2.len() implies crate::readback::spec_is_ident_text(#[trigger] t2[k]) by {
            assert(t2[k] == rest[k + 1]);
        }
        let j2 = crate::const_eval::spec_join_dots(t2);
        assert forall|m: int| 0 <= m < j2.len() implies #[trigger] s.subrange(e + 1, s.len() as int)[m] == j2[m] by {
            assert(s[e + 1 + m] == tail[r0.len() + 1 + m]);
        }
        assert(s.subrange(e + 1, s.len() as int) =~= j2);
        lemma_path_rest_reads(s, e, acc.push(r0), t2);
        assert(acc.push(r0) + t2 =~= acc + rest);
    }
}

/// A const reference qualified by the current module reads the const from
/// the module's local const table: for a module path `ms` (identifiers) that
/// is the current module and a name `n` the table holds, the text
/// `ms.n` evaluates to the table's value for `n`.
pub proof fn law_current_module_const_reads_local_table(
    ms: Seq<Seq<char>>,
    n: Seq<char>,
    env: Map<Seq<char>, ConstView>,
    r: ResolverView,
    blocked: Set<Seq<char>>,
)
    requires
        ms.len() >= 1,
        forall|k: int| 0 <= k < ms.len() ==> crate::readback::spec_is_ident_text(#[trigger] ms[k]),
        crate::readback::spec_is_ident_text(n),
        crate::const_eval::spec_join_dots(ms) == r.current_module(),
        env.dom().contains(n),
    ensures
        spec_parse_const_value(crate::const_eval::spec_join_dots(ms.push(n)), env, r, blocked, None)
            == Ok::<ConstView, crate::errors::ErrorView>(env[n]),
{
    let segs = ms.push(n);
    let s = crate::const_eval::spec_join_dots(segs);
    let s0 = segs[0];
    let tail = segs.drop_first();
    assert forall|k: int| 0 <= k < segs.len() implies crate::readback::spec_is_ident_text(#[trigger] segs[k]) by {
        if k < ms.len() {
            assert(segs[k] == ms[k]);
        }
    }
    assert(segs =~= seq![s0] + tail);
    lemma_join_dots_front(s0, tail);
    assert(s =~= s0 + seq!['.'] + crate::const_eval::spec_join_dots(tail));
    let e = s0.len() as int;
    assert(crate::readback::spec_is_ident_text(s0));
    assert forall|m: int| 1 <= m < e implies crate::text::spec_is_ident_continue(#[trigger] s[m]) by {
        assert(s[m] == s0[m]);
    }
    assert(s[e] == '.');
    crate::readback::lemma_ident_end_at(s, 1, e);
    assert(s.subrange(0, e) =~= s0);
    assert(s[0] == s0[0]);
    assert(crate::const_eval::spec_parse_ident(s, 0) == Ok::<(Seq<char>, int), crate::errors::ErrorView>((s0, e)));
    assert forall|k: int| 0 <= k < tail.len() implies crate::readback::spec_is_ident_text(#[trigger] tail[k]) by {
        assert(tail[k] == segs[k + 1]);
    }
    assert(s.subrange(e + 1, s.len() as int) =~= crate::const_eval::spec_join_dots(tail));
    lemma_path_rest_reads(s, e, seq![s0], tail);
    assert(seq![s0] + tail =~= segs);
    assert(crate::const_eval::spec_parse_path(s, 0) == Ok::<(Seq<Seq<char>>, int), crate::errors::ErrorView>((segs, s.len() as int)));
    assert(segs.drop_last() =~= ms);
    assert(segs.last() == n);
    assert(crate::const_eval::spec_env_get(env, n) == Some(env[n]));
    assert(crate::const_eval::spec_resolve_reference(segs, env, r, blocked) == Ok::<ConstView, crate::errors::ErrorView>(env[n]));
    crate::readback::lemma_skip_ws_to(s, 0, 0);
    crate::readback::lemma_skip_ws_end(s);
}

proof fn lemma_option_branches(
    opts: Seq<(Seq<SegmentView>, Seq<StmtView>)>,
    pc: int,
    join: int,
    ctx: Option<(int, int)>,
    locals: Seq<Seq<char>>,
)
    requires
        0 <= pc,
        crate::lower::spec_lower_options(opts, pc, join, ctx, locals) is Ok,
    ensures
        ({
            let branches = crate::lower::spec_lower_options(opts, pc, join, ctx, locals)->Ok_0.1;
            &&& branches.len() == opts.len()
            &&& forall|j: int| 0 <= j < opts.len() ==> #[trigger] branches[j].0 == crate::lower::spec_lower_text(opts[j].0)
            &&& opts.len() > 0 ==> branches[0].1 == pc
            &&& forall|j: int| 0 <= j < opts.len() - 1 ==> #[trigger] branches[j + 1].1 == branches[j].1
                + crate::lower::spec_block_len(opts[j].1) + 1
        }),
    decreases opts.len(),
{
    if opts.len() > 0 {
        let (code, l2) = crate::lower::spec_lower_block(opts[0].1, pc, ctx, locals)->Ok_0;
        let next = pc + crate::lower::spec_block_len(opts[0].1) + 1;
        lemma_option_branches(opts.drop_first(), next, join, ctx, l2);
        let branches = crate::lower::spec_lower_options(opts, pc, join, ctx, locals)->Ok_0.1;
        let rest = crate::lower::spec_lower_options(opts.drop_first(), next, join, ctx, l2)->Ok_0.1;
        assert(branches == seq![(crate::lower::spec_lower_text(opts[0].0), pc as nat)] + rest);
        assert forall|j: int| 0 <= j < opts.len() implies #[trigger] branches[j].0 == crate::lower::spec_lower_text(opts[j].0) by {
            if j > 0 {
                assert(branches[j] == rest[j - 1]);
                assert(opts.drop_first()[j - 1] == opts[j]);
            }
        }
        assert forall|j: int| 0 <= j < opts.len() - 1 implies #[trigger] branches[j + 1].1 == branches[j].1
            + crate::lower::spec_block_len(opts[j].1) + 1 by {
            assert(branches[j + 1] == rest[j]);
            if j > 0 {
                assert(branches[j] == rest[j - 1]);
                assert(opts.drop_first()[j - 1] == opts[j]);
                assert(rest[(j - 1) + 1].1 == rest[j - 1].1 + crate::lower::spec_block_len(opts.drop_first()[j - 1].1) + 1);
            } else {
                assert(rest[0].1 == next);
            }
        }
    }
}

/// A lowered choice starts with the instruction that builds it, and that
/// instruction offers one branch per option, in order, each labelled with
/// its option's text lowered (literal pieces kept, expression holes with
/// their var placeholders lowered to runtime names), and the prompt lowered
/// the same way. The first branch goes to the instruction right after it;
/// each next branch goes past the previous option's code and its jump out.
pub proof fn law_choice_branches_carry_option_text(
    prompt: Option<Seq<SegmentView>>,
    options: Seq<(Seq<SegmentView>, Seq<StmtView>)>,
    pc: int,
    ctx: Option<(int, int)>,
    locals: Seq<Seq<char>>,
)
    requires
        0 <= pc,
        crate::lower::spec_lower_stmt(StmtView::Choice { prompt, options }, pc, ctx, locals) is Ok,
    ensures
        ({
            let code = crate::lower::spec_lower_stmt(StmtView::Choice { prompt, options }, pc, ctx, locals)->Ok_0.0;
            &&& code.len() >= 1
            &&& code[0] matches InstrView::BuildChoice { prompt: p, options: branches }
                && branches.len() == options.len()
                && (forall|j: int| 0 <= j < options.len() ==> #[trigger] branches[j].0 == crate::lower::spec_lower_text(options[j].0))
                && (options.len() > 0 ==> branches[0].1 == pc + 1)
                && (forall|j: int| 0 <= j < options.len() - 1 ==> #[trigger] branches[j + 1].1 == branches[j].1
                    + crate::lower::spec_block_len(options[j].1) + 1)
                && p == match prompt {
                    Some(t) => Some(crate::lower::spec_lower_text(t)),
                    None => None,
                }
        }),
{
    let join = pc + 1 + crate::lower::spec_options_len(options);
    lemma_option_branches(options, pc + 1, join, ctx, locals);
}

proof fn lemma_block_is_per_child(
    owner: Form,
    i: int,
    env: Map<Seq<char>, ConstView>,
    r: ResolverView,
    blocked: Set<Seq<char>>,
    sh: Set<Seq<char>>,
)
    requires
        spec_child_forms(owner) is Ok,
        0 <= i <= spec_child_forms(owner)->Ok_0.len(),
        crate::semantic::spec_analyze_block(owner, i, env, r, blocked, sh) is Ok,
    ensures
        crate::semantic::spec_analyze_block(owner, i, env, r, blocked, sh)->Ok_0.0.len() == spec_child_forms(owner)->Ok_0.len() - i,
    decreases spec_child_forms(owner)->Ok_0.len() - i,
{
    let fs = spec_child_forms(owner)->Ok_0;
    if i < fs.len() {
        let res = crate::semantic::spec_analyze_stmt(fs[i], env, r, blocked, sh);
        let st = res->Ok_0.0;
        let sh_next = crate::semantic::spec_shadow_after(st, res->Ok_0.1);
        lemma_block_is_per_child(owner, i + 1, env, r, blocked, sh_next);
    }
}

/// An analyzed choice option keeps all of its statements: its body has one
/// analyzed statement per child statement form of the option, and the first
/// is the analysis of the first child.
pub proof fn law_option_body_is_its_analyzed_children(
    opt: Form,
    env: Map<Seq<char>, ConstView>,
    r: ResolverView,
    blocked: Set<Seq<char>>,
    sh: Set<Seq<char>>,
)
    requires
        crate::semantic::spec_analyze_option(opt, env, r, blocked, sh) is Ok,
    ensures
        spec_child_forms(opt) is Ok,
        crate::semantic::spec_analyze_option(opt, env, r, blocked, sh)->Ok_0.0.1.len() == spec_child_forms(opt)->Ok_0.len(),
        spec_child_forms(opt)->Ok_0.len() > 0 ==> crate::semantic::spec_analyze_stmt(spec_child_forms(opt)->Ok_0[0], env, r, blocked, sh) is Ok
            && crate::semantic::spec_analyze_option(opt, env, r, blocked, sh)->Ok_0.0.1[0]
            == crate::semantic::spec_analyze_stmt(spec_child_forms(opt)->Ok_0[0], env, r, blocked, sh)->Ok_0.0,
{
    lemma_block_is_per_child(opt, 0, env, r, blocked, sh);
}

/// An analyzed choice keeps all of its options: from option `i` on, the
/// analysis gives one analyzed option per remaining `<option>` child, in
/// order, the first being the analysis of that child.
pub proof fn law_choice_keeps_every_option(
    choice: Form,
    i: int,
    env: Map<Seq<char>, ConstView>,
    r: ResolverView,
    blocked: Set<Seq<char>>,
    sh: Set<Seq<char>>,
)
    requires
        spec_child_forms(choice) is Ok,
        0 <= i <= spec_child_forms(choice)->Ok_0.len(),
        crate::semantic::spec_analyze_options(choice, i, env, r, blocked, sh) is Ok,
    ensures
        crate::semantic::spec_analyze_options(choice, i, env, r, blocked, sh)->Ok_0.0.len() == spec_child_forms(choice)->Ok_0.len() - i,
        i < spec_child_forms(choice)->Ok_0.len() ==> crate::semantic::spec_analyze_option(spec_child_forms(choice)->Ok_0[i], env, r, blocked, sh) is Ok
            && crate::semantic::spec_analyze_options(choice, i, env, r, blocked, sh)->Ok_0.0[0]
            == crate::semantic::spec_analyze_option(spec_child_forms(choice)->Ok_0[i], env, r, blocked, sh)->Ok_0.0,
    decreases spec_child_forms(choice)->Ok_0.len() - i,
{
    let os = spec_child_forms(choice)->Ok_0;
    if i < os.len() {
        let res = crate::semantic::spec_analyze_option(os[i], env, r, blocked, sh);
        law_choice_keeps_every_option(choice, i + 1, env, r, blocked, res->Ok_0.1);
    }
}

/// A short const reference to a const of the local table reads it: an
/// identifier other than `true` and `false` that the table holds evaluates to
/// the table's value, whatever the other consts in scope.
pub proof fn law_local_const_reference_reads_local_table(
    n: Seq<char>,
    env: Map<Seq<char>, ConstView>,
    r: ResolverView,
    blocked: Set<Seq<char>>,
)
    requires
        crate::readback::spec_is_ident_text(n),
        n != "true"@,
        n != "false"@,
        env.dom().contains(n),
    ensures
        spec_parse_const_value(n, env, r, blocked, None) == Ok::<ConstView, crate::errors::ErrorView>(env[n]),
{
    let e = n.len() as int;
    assert forall|m: int| 1 <= m < e implies crate::text::spec_is_ident_continue(#[trigger] n[m]) by {}
    crate::readback::lemma_ident_end_at(n, 1, e);
    assert(n.subrange(0, e) =~= n);
    assert(crate::const_eval::spec_parse_ident(n, 0) == Ok::<(Seq<char>, int), crate::errors::ErrorView>((n, e)));
    assert(crate::const_eval::spec_path_rest(n, e, seq![n]) == Ok::<(Seq<Seq<char>>, int), crate::errors::ErrorView>((seq![n], e)));
    assert(seq![n].len() == 1 && seq![n][0] == n);
    assert(crate::const_eval::spec_env_get(env, n) == Some(env[n]));
    crate::readback::lemma_skip_ws_to(n, 0, 0);
    crate::readback::lemma_skip_ws_end(n);
}

} // verus!
