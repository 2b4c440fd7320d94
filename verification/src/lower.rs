//! Lowering of analyzed scripts into runtime instructions: loops become
//! conditional jumps, choices become a choice table with one branch per
//! option, temps get local slots.
use vstd::prelude::*;
use crate::collections::NameMap;
use crate::errors::{ErrorView, ScriptLangError};
use crate::expr::template::{SegmentView, TextSegment, TextTemplate};
use crate::names::{lower_resolved_vars_to_runtime_names, spec_lower_from};
use crate::semantic::{
    SemanticChoiceOption, SemanticScript, SemanticStmt, StmtView, spec_option_views, spec_stmt_view,
    spec_stmt_views,
};

verus! {

/// A piece of a compiled text.
#[derive(Debug, PartialEq, Eq)]
pub enum CompiledTextPart {
    Literal(String),
    Expr(String),
}

/// A text as the runtime renders it.
#[derive(Debug, PartialEq, Eq)]
pub struct CompiledText {
    pub parts: Vec<CompiledTextPart>,
}

/// An option of a choice table: its text and where its branch starts.
#[derive(Debug, PartialEq, Eq)]
pub struct ChoiceBranch {
    pub text: CompiledText,
    pub target_pc: usize,
}

/// A runtime instruction.
#[derive(Debug, PartialEq, Eq)]
pub enum Instruction {
    EvalTemp { local_id: usize, expr: String },
    ExecCode { code: String },
    EmitText { text: CompiledText, tag: Option<String> },
    EvalCond { expr: String },
    JumpIfFalse { target_pc: usize },
    Jump { target_pc: usize },
    BuildChoice { prompt: Option<CompiledText>, options: Vec<ChoiceBranch> },
    JumpScript { script_id: usize },
    JumpScriptExpr { expr: String },
    End,
    /// Evaluates the initializer of a global.
    EvalGlobalInit { global_id: usize, expr: String },
}

/// The mathematical value of a compiled text part.
pub enum PartView {
    Literal(Seq<char>),
    Expr(Seq<char>),
}

/// The mathematical value of an instruction.
pub enum InstrView {
    EvalTemp { local_id: nat, expr: Seq<char> },
    ExecCode { code: Seq<char> },
    EmitText { text: Seq<PartView>, tag: Option<Seq<char>> },
    EvalCond { expr: Seq<char> },
    JumpIfFalse { target_pc: nat },
    Jump { target_pc: nat },
    BuildChoice { prompt: Option<Seq<PartView>>, options: Seq<(Seq<PartView>, nat)> },
    JumpScript { script_id: nat },
    JumpScriptExpr { expr: Seq<char> },
    End,
    EvalGlobalInit { global_id: nat, expr: Seq<char> },
}

pub open spec fn spec_part_view(p: CompiledTextPart) -> PartView {
    match p {
        CompiledTextPart::Literal(t) => PartView::Literal(t@),
        CompiledTextPart::Expr(t) => PartView::Expr(t@),
    }
}

pub open spec fn spec_text_view(t: CompiledText) -> Seq<PartView> {
    t.parts@.map_values(|p: CompiledTextPart| spec_part_view(p))
}

pub open spec fn spec_instr_view(i: Instruction) -> InstrView {
    match i {
        Instruction::EvalTemp { local_id, expr } => InstrView::EvalTemp { local_id: local_id as nat, expr: expr@ },
        Instruction::ExecCode { code } => InstrView::ExecCode { code: code@ },
        Instruction::EmitText { text, tag } => InstrView::EmitText {
            text: spec_text_view(text),
            tag: match tag {
                Some(t) => Some(t@),
                None => None,
            },
        },
        Instruction::EvalCond { expr } => InstrView::EvalCond { expr: expr@ },
        Instruction::JumpIfFalse { target_pc } => InstrView::JumpIfFalse { target_pc: target_pc as nat },
        Instruction::Jump { target_pc } => InstrView::Jump { target_pc: target_pc as nat },
        Instruction::BuildChoice { prompt, options } => InstrView::BuildChoice {
            prompt: match prompt {
                Some(p) => Some(spec_text_view(p)),
                None => None,
            },
            options: options@.map_values(|b: ChoiceBranch| (spec_text_view(b.text), b.target_pc as nat)),
        },
        Instruction::JumpScript { script_id } => InstrView::JumpScript { script_id: script_id as nat },
        Instruction::JumpScriptExpr { expr } => InstrView::JumpScriptExpr { expr: expr@ },
        Instruction::EvalGlobalInit { global_id, expr } => InstrView::EvalGlobalInit { global_id: global_id as nat, expr: expr@ },
        Instruction::End => InstrView::End,
    }
}

pub open spec fn spec_instr_views(v: Seq<Instruction>) -> Seq<InstrView> {
    v.map_values(|i: Instruction| spec_instr_view(i))
}

/// A template as the runtime renders it: var placeholders in its holes
/// become runtime global names.
pub open spec fn spec_lower_text(t: Seq<SegmentView>) -> Seq<PartView> {
    t.map_values(
        |s: SegmentView| match s {
            SegmentView::Literal(x) => PartView::Literal(x),
            SegmentView::Expr(x) => PartView::Expr(spec_lower_from(x, 0)),
        },
    )
}

/// How many instructions a statement lowers to.
pub open spec fn spec_stmt_len(st: StmtView) -> nat
    decreases st,
{
    match st {
        StmtView::While { body, .. } => 3 + spec_block_len(body),
        StmtView::Choice { options, .. } => 1 + spec_options_len(options),
        _ => 1,
    }
}

/// How many instructions a block lowers to.
pub open spec fn spec_block_len(stmts: Seq<StmtView>) -> nat
    decreases stmts,
{
    if stmts.len() == 0 {
        0
    } else {
        spec_stmt_len(stmts[0]) + spec_block_len(stmts.drop_first())
    }
}

/// How many instructions the branches of a choice lower to: each body and
/// its jump to the join point.
pub open spec fn spec_options_len(opts: Seq<(Seq<SegmentView>, Seq<StmtView>)>) -> nat
    decreases opts,
{
    if opts.len() == 0 {
        0
    } else {
        spec_block_len(opts[0].1) + 1 + spec_options_len(opts.drop_first())
    }
}

/// The local slot of a temp: its existing slot, or a new one at the end.
pub open spec fn spec_assign_local(locals: Seq<Seq<char>>, name: Seq<char>) -> (nat, Seq<Seq<char>>) {
    if locals.contains(name) {
        (locals.index_of(name) as nat, locals)
    } else {
        (locals.len(), locals.push(name))
    }
}

/// The instructions a statement lowers to when it starts at `pc`, inside the
/// loop `ctx` (its head and exit), with the local slots `locals`; and the
/// slots after it. `break` and `continue` outside a loop are errors.
pub open spec fn spec_lower_stmt(st: StmtView, pc: int, ctx: Option<(int, int)>, locals: Seq<Seq<char>>) -> Result<(Seq<InstrView>, Seq<Seq<char>>), ErrorView>
    decreases st, 1nat,
{
    match st {
        StmtView::Temp { name, expr, .. } => {
            let (id, l2) = spec_assign_local(locals, name);
            Ok((seq![InstrView::EvalTemp { local_id: id, expr: spec_lower_from(expr, 0) }], l2))
        },
        StmtView::Code { code } => Ok((seq![InstrView::ExecCode { code: spec_lower_from(code, 0) }], locals)),
        StmtView::Text { template, tag } => Ok((seq![InstrView::EmitText { text: spec_lower_text(template), tag }], locals)),
        StmtView::While { when, skip_loop_control_capture, body } => {
            let exit = pc + 3 + spec_block_len(body);
            let inner = if skip_loop_control_capture { ctx } else { Some((pc, exit)) };
            match spec_lower_block(body, pc + 2, inner, locals) {
                Err(e) => Err(e),
                Ok((code, l2)) => Ok((
                    seq![InstrView::EvalCond { expr: spec_lower_from(when, 0) }, InstrView::JumpIfFalse { target_pc: exit as nat }]
                        + code + seq![InstrView::Jump { target_pc: pc as nat }],
                    l2,
                )),
            }
        },
        StmtView::Break => match ctx {
            None => Err(ErrorView::BreakOutsideLoop),
            Some((_, exit)) => Ok((seq![InstrView::Jump { target_pc: exit as nat }], locals)),
        },
        StmtView::Continue => match ctx {
            None => Err(ErrorView::ContinueOutsideLoop),
            Some((head, _)) => Ok((seq![InstrView::Jump { target_pc: head as nat }], locals)),
        },
        StmtView::Choice { prompt, options } => {
            let join = pc + 1 + spec_options_len(options);
            match spec_lower_options(options, pc + 1, join, ctx, locals) {
                Err(e) => Err(e),
                Ok((code, branches, l2)) => Ok((
                    seq![InstrView::BuildChoice {
                        prompt: match prompt {
                            Some(p) => Some(spec_lower_text(p)),
                            None => None,
                        },
                        options: branches,
                    }] + code,
                    l2,
                )),
            }
        },
        StmtView::Goto { expr } => Ok((seq![InstrView::JumpScriptExpr { expr: spec_lower_from(expr, 0) }], locals)),
        StmtView::End => Ok((seq![InstrView::End], locals)),
    }
}

/// The instructions a block lowers to, statement after statement.
pub open spec fn spec_lower_block(stmts: Seq<StmtView>, pc: int, ctx: Option<(int, int)>, locals: Seq<Seq<char>>) -> Result<(Seq<InstrView>, Seq<Seq<char>>), ErrorView>
    decreases stmts, 0nat,
{
    if stmts.len() == 0 {
        Ok((Seq::empty(), locals))
    } else {
        match spec_lower_stmt(stmts[0], pc, ctx, locals) {
            Err(e) => Err(e),
            Ok((code, l2)) => match spec_lower_block(stmts.drop_first(), pc + spec_stmt_len(stmts[0]), ctx, l2) {
                Err(e) => Err(e),
                Ok((rest, l3)) => Ok((code + rest, l3)),
            },
        }
    }
}

/// The branches of a choice: each option's body followed by a jump to
/// `join`, and the table entry of each option (its text and where its body
/// starts).
pub open spec fn spec_lower_options(
    opts: Seq<(Seq<SegmentView>, Seq<StmtView>)>,
    pc: int,
    join: int,
    ctx: Option<(int, int)>,
    locals: Seq<Seq<char>>,
) -> Result<(Seq<InstrView>, Seq<(Seq<PartView>, nat)>, Seq<Seq<char>>), ErrorView>
    decreases opts, 0nat,
{
    if opts.len() == 0 {
        Ok((Seq::empty(), Seq::empty(), locals))
    } else {
        match spec_lower_block(opts[0].1, pc, ctx, locals) {
            Err(e) => Err(e),
            Ok((code, l2)) => match spec_lower_options(opts.drop_first(), pc + spec_block_len(opts[0].1) + 1, join, ctx, l2) {
                Err(e) => Err(e),
                Ok((rest, branches, l3)) => Ok((
                    code + seq![InstrView::Jump { target_pc: join as nat }] + rest,
                    seq![(spec_lower_text(opts[0].0), pc as nat)] + branches,
                    l3,
                )),
            },
        }
    }
}

pub proof fn lemma_stmt_views_index(v: Seq<SemanticStmt>)
    ensures
        spec_stmt_views(v).len() == v.len(),
        forall|i: int| 0 <= i < v.len() ==> #[trigger] spec_stmt_views(v)[i] == spec_stmt_view(v[i]),
    decreases v.len(),
{
    if v.len() > 0 {
        lemma_stmt_views_index(v.drop_last());
    }
}

pub proof fn lemma_option_views_index(v: Seq<SemanticChoiceOption>)
    ensures
        spec_option_views(v).len() == v.len(),
        forall|i: int| 0 <= i < v.len() ==> #[trigger] spec_option_views(v)[i] == (v[i].text@, spec_stmt_views(v[i].body@)),
    decreases v.len(),
{
    if v.len() > 0 {
        lemma_option_views_index(v.drop_last());
    }
}

/// The script being lowered: its local slots (names in slot order, and
/// each name's slot) and its instructions so far.
pub struct ScriptDraft {
    pub local_names: Vec<String>,
    pub local_lookup: NameMap<usize>,
    pub instructions: Vec<Instruction>,
}

impl ScriptDraft {
    pub open spec fn locals(&self) -> Seq<Seq<char>> {
        self.local_names@.map_values(|s: String| s@)
    }

    /// Each name has one slot, and the lookup agrees with the slot order.
    pub open spec fn wf(&self) -> bool {
        &&& self.local_lookup.wf()
        &&& self.locals().no_duplicates()
        &&& forall|k: Seq<char>| #[trigger] self.local_lookup.spec_contains(k) <==> self.locals().contains(k)
        &&& forall|k: Seq<char>| #[trigger] self.local_lookup.spec_contains(k) ==> {
            let i = self.local_lookup.spec_get(k)->0;
            &&& i < self.locals().len()
            &&& self.locals()[i as int] == k
        }
    }

    /// A draft with no slots and no instructions.
    pub fn new() -> (r: Self)
        ensures
            r.wf(),
            r.locals().len() == 0,
            r.instructions@.len() == 0,
    {
        let r = ScriptDraft { local_names: Vec::new(), local_lookup: NameMap::new(), instructions: Vec::new() };
        assert(r.locals() =~= Seq::<Seq<char>>::empty());
        r
    }
}

/// The slot of a temp: its slot if it has one, else a new slot.
pub fn assign_local_id(draft: &mut ScriptDraft, name: &str) -> (id: usize)
    requires
        old(draft).wf(),
    ensures
        final(draft).wf(),
        (id as nat, final(draft).locals()) == spec_assign_local(old(draft).locals(), name@),
        final(draft).instructions == old(draft).instructions,
{
    match draft.local_lookup.get(name) {
        Some(id) => {
            let id = *id;
            proof {
                assert(draft.local_lookup.spec_contains(name@));
                let l = draft.locals();
                assert(l.contains(name@));
                let c = l.index_of(name@);
                assert(l[c] == name@);
                assert(l[id as int] == name@);
            }
            id
        },
        None => {
            let id = draft.local_names.len();
            let ghost old_l = draft.locals();
            proof {
                assert(!draft.local_lookup.spec_contains(name@));
                assert(!old_l.contains(name@));
            }
            draft.local_names.push(name.to_string());
            draft.local_lookup.insert(name.to_string(), id);
            proof {
                let l = draft.locals();
                assert(l =~= old_l.push(name@));
                assert forall|k: Seq<char>| #[trigger] draft.local_lookup.spec_contains(k) <==> l.contains(k) by {
                    if k == name@ {
                        assert(l[old_l.len() as int] == k);
                    } else {
                        assert(draft.local_lookup.spec_get(k) == old(draft).local_lookup.spec_get(k));
                        if l.contains(k) {
                            let j = choose|j: int| 0 <= j < l.len() && l[j] == k;
                            assert(old_l[j] == k);
                        }
                        if old_l.contains(k) {
                            let j = choose|j: int| 0 <= j < old_l.len() && old_l[j] == k;
                            assert(l[j] == k);
                        }
                    }
                }
                assert forall|k: Seq<char>| #[trigger] draft.local_lookup.spec_contains(k) implies {
                    let i = draft.local_lookup.spec_get(k)->0;
                    &&& i < l.len()
                    &&& l[i as int] == k
                } by {
                    if k != name@ {
                        assert(draft.local_lookup.spec_get(k) == old(draft).local_lookup.spec_get(k));
                    }
                }
            }
            id
        },
    }
}

/// A template as the runtime renders it.
pub fn lower_text_template(template: &TextTemplate) -> (r: CompiledText)
    ensures
        spec_text_view(r) == spec_lower_text(template@),
{
    let mut parts: Vec<CompiledTextPart> = Vec::new();
    let mut i: usize = 0;
    while i < template.segments.len()
        invariant
            i <= template.segments@.len(),
            parts@.map_values(|p: CompiledTextPart| spec_part_view(p)) =~= spec_lower_text(template@).take(i as int),
        decreases template.segments@.len() - i,
    {
        let part = match &template.segments[i] {
            TextSegment::Literal(t) => CompiledTextPart::Literal(t.clone()),
            TextSegment::Expr(e) => CompiledTextPart::Expr(lower_resolved_vars_to_runtime_names(e.as_str())),
        };
        let ghost old_parts = parts@;
        parts.push(part);
        proof {
            assert(parts@.map_values(|p: CompiledTextPart| spec_part_view(p)) =~= old_parts.map_values(|p: CompiledTextPart| spec_part_view(p)).push(spec_part_view(part)));
            assert(spec_lower_text(template@).take(i + 1) =~= spec_lower_text(template@).take(i as int).push(spec_lower_text(template@)[i as int]));
        }
        i = i + 1;
    }
    let r = CompiledText { parts };
    assert(spec_text_view(r) =~= spec_lower_text(template@));
    r
}

pub open spec fn spec_ctx(c: Option<(usize, usize)>) -> Option<(int, int)> {
    match c {
        Some((h, x)) => Some((h as int, x as int)),
        None => None,
    }
}

/// How many instructions a statement lowers to.
fn stmt_code_len(st: &SemanticStmt) -> (n: usize)
    requires
        spec_stmt_len(st@) <= usize::MAX,
    ensures
        n == spec_stmt_len(st@),
    decreases st, 1nat,
{
    match st {
        SemanticStmt::While { body, .. } => {
            proof {
                assert(decreases_to!(st => body));
            }
            3 + block_code_len(body)
        },
        SemanticStmt::Choice { options, .. } => {
            proof {
                assert(decreases_to!(st => options));
            }
            1 + options_code_len(options)
        },
        _ => 1,
    }
}

/// How many instructions a block lowers to.
fn block_code_len(body: &Vec<SemanticStmt>) -> (n: usize)
    requires
        spec_block_len(spec_stmt_views(body@)) <= usize::MAX,
    ensures
        n == spec_block_len(spec_stmt_views(body@)),
    decreases body, 0nat,
{
    let ghost views = spec_stmt_views(body@);
    proof {
        lemma_stmt_views_index(body@);
        assert(views.skip(0) =~= views);
    }
    let mut acc: usize = 0;
    let mut i: usize = 0;
    while i < body.len()
        invariant
            views == spec_stmt_views(body@),
            views.len() == body@.len(),
            forall|j: int| 0 <= j < body@.len() ==> #[trigger] views[j] == spec_stmt_view(body@[j]),
            i <= body@.len(),
            spec_block_len(views) <= usize::MAX,
            acc + spec_block_len(views.skip(i as int)) == spec_block_len(views),
        decreases body@.len() - i,
    {
        proof {
            assert(views.skip(i as int)[0] == views[i as int]);
            assert(views.skip(i as int).drop_first() =~= views.skip(i + 1));
            assert(decreases_to!(body => body@[i as int]));
        }
        let n = stmt_code_len(&body[i]);
        acc = acc + n;
        i = i + 1;
    }
    acc
}

/// How many instructions the branches of a choice lower to.
fn options_code_len(options: &Vec<SemanticChoiceOption>) -> (n: usize)
    requires
        spec_options_len(spec_option_views(options@)) <= usize::MAX,
    ensures
        n == spec_options_len(spec_option_views(options@)),
    decreases options, 0nat,
{
    let ghost views = spec_option_views(options@);
    proof {
        lemma_option_views_index(options@);
        assert(views.skip(0) =~= views);
    }
    let mut acc: usize = 0;
    let mut i: usize = 0;
    while i < options.len()
        invariant
            views == spec_option_views(options@),
            views.len() == options@.len(),
            forall|j: int| 0 <= j < options@.len() ==> #[trigger] views[j] == (options@[j].text@, spec_stmt_views(options@[j].body@)),
            i <= options@.len(),
            spec_options_len(views) <= usize::MAX,
            acc + spec_options_len(views.skip(i as int)) == spec_options_len(views),
        decreases options@.len() - i,
    {
        proof {
            assert(views.skip(i as int)[0] == views[i as int]);
            assert(views.skip(i as int).drop_first() =~= views.skip(i + 1));
            assert(decreases_to!(options => options@[i as int]));
            assert(decreases_to!(options@[i as int] => options@[i as int].body));
        }
        let n = block_code_len(&options[i].body);
        acc = acc + n + 1;
        i = i + 1;
    }
    acc
}

pub proof fn lemma_views_concat(a: Seq<Instruction>, b: Seq<Instruction>)
    ensures
        spec_instr_views(a + b) == spec_instr_views(a) + spec_instr_views(b),
{
    assert(spec_instr_views(a + b) =~= spec_instr_views(a) + spec_instr_views(b));
}

/// When `long` starts with `short`, which has two items after `at`, the
/// items of `long` from `at` are those two, then what follows `short`.
pub proof fn lemma_prefix_split(long: Seq<Instruction>, short: Seq<Instruction>, at: int)
    requires
        0 <= at,
        short.len() == at + 2,
        long.len() >= short.len(),
        long.take(short.len() as int) == short,
    ensures
        long.skip(at) == short.skip(at) + long.skip(at + 2),
{
    assert forall|k: int| 0 <= k < short.len() implies long[k] == short[k] by {
        assert(long.take(short.len() as int)[k] == long[k]);
    }
    assert(long.skip(at) =~= short.skip(at) + long.skip(at + 2));
}

/// What lowering a statement or block did to the draft: the instructions
/// before it stay, and the ones it added are the spec's.
pub open spec fn spec_lowered(
    r: Result<(), ScriptLangError>,
    expected: Result<(Seq<InstrView>, Seq<Seq<char>>), ErrorView>,
    before: ScriptDraft,
    after: ScriptDraft,
    len: nat,
) -> bool {
    match r {
        Ok(()) => {
            &&& after.instructions@.len() == before.instructions@.len() + len
            &&& after.instructions@.take(before.instructions@.len() as int) == before.instructions@
            &&& expected == Ok::<(Seq<InstrView>, Seq<Seq<char>>), ErrorView>(
                (spec_instr_views(after.instructions@.skip(before.instructions@.len() as int)), after.locals()),
            )
        },
        Err(e) => expected == Err::<(Seq<InstrView>, Seq<Seq<char>>), ErrorView>(e@),
    }
}

/// Appends the instructions of one statement.
fn lower_stmt(draft: &mut ScriptDraft, st: &SemanticStmt, ctx: Option<(usize, usize)>) -> (r: Result<(), ScriptLangError>)
    requires
        old(draft).wf(),
        old(draft).instructions@.len() + spec_stmt_len(st@) <= usize::MAX,
    ensures
        final(draft).wf(),
        spec_lowered(r, spec_lower_stmt(st@, old(draft).instructions@.len() as int, spec_ctx(ctx), old(draft).locals()), *old(draft), *final(draft), spec_stmt_len(st@)),
    decreases st, 1nat,
{
    let ghost before = *draft;
    let pc = draft.instructions.len();
    match st {
        SemanticStmt::Temp { name, expr, .. } => {
            let local_id = assign_local_id(draft, name.as_str());
            draft.instructions.push(Instruction::EvalTemp { local_id, expr: lower_resolved_vars_to_runtime_names(expr.as_str()) });
        },
        SemanticStmt::Code { code } => {
            draft.instructions.push(Instruction::ExecCode { code: lower_resolved_vars_to_runtime_names(code.as_str()) });
        },
        SemanticStmt::Text { template, tag } => {
            let tag_copy = match tag {
                Some(t) => Some(t.clone()),
                None => None,
            };
            draft.instructions.push(Instruction::EmitText { text: lower_text_template(template), tag: tag_copy });
        },
        SemanticStmt::While { when, skip_loop_control_capture, body } => {
            proof {
                assert(decreases_to!(st => body));
            }
            let body_len = block_code_len(body);
            let exit_pc = pc + 3 + body_len;
            draft.instructions.push(Instruction::EvalCond { expr: lower_resolved_vars_to_runtime_names(when.as_str()) });
            draft.instructions.push(Instruction::JumpIfFalse { target_pc: exit_pc });
            let ghost mid = *draft;
            let inner = if *skip_loop_control_capture { ctx } else { Some((pc, exit_pc)) };
            match lower_block(draft, body, inner) {
                Ok(()) => {},
                Err(e) => {
                    return Err(e);
                },
            }
            let ghost after_body = *draft;
            draft.instructions.push(Instruction::Jump { target_pc: pc });
            proof {
                let bv = spec_stmt_views(body@);
                let code = spec_instr_views(after_body.instructions@.skip(mid.instructions@.len() as int));
                lemma_prefix_split(after_body.instructions@, mid.instructions@, pc as int);
                lemma_views_concat(mid.instructions@.skip(pc as int), after_body.instructions@.skip(pc + 2));
                assert(draft.instructions@.skip(pc as int) =~= after_body.instructions@.skip(pc as int).push(Instruction::Jump { target_pc: pc }));
                lemma_views_concat(after_body.instructions@.skip(pc as int), seq![Instruction::Jump { target_pc: pc }]);
                assert(seq![Instruction::Jump { target_pc: pc }] =~= seq![Instruction::Jump { target_pc: pc }]);
                assert(after_body.instructions@.skip(pc as int) + seq![Instruction::Jump { target_pc: pc }] =~= after_body.instructions@.skip(pc as int).push(Instruction::Jump { target_pc: pc }));
                assert(spec_instr_views(mid.instructions@.skip(pc as int)) =~= seq![
                    InstrView::EvalCond { expr: spec_lower_from(when@, 0) },
                    InstrView::JumpIfFalse { target_pc: exit_pc as nat },
                ]);
                assert(draft.instructions@.take(pc as int) =~= before.instructions@) by {
                    assert(mid.instructions@.take(pc as int) =~= before.instructions@);
                    assert(after_body.instructions@.take(mid.instructions@.len() as int) == mid.instructions@);
                }
                assert(spec_instr_views(draft.instructions@.skip(pc as int)) =~= seq![
                    InstrView::EvalCond { expr: spec_lower_from(when@, 0) },
                    InstrView::JumpIfFalse { target_pc: exit_pc as nat },
                ] + code + seq![InstrView::Jump { target_pc: pc as nat }]) by {
                    assert(after_body.instructions@.take(mid.instructions@.len() as int) == mid.instructions@);
                }
            }
            return Ok(());
        },
        SemanticStmt::Break => {
            match ctx {
                None => {
                    return Err(ScriptLangError::BreakOutsideLoop);
                },
                Some((_, exit_pc)) => {
                    draft.instructions.push(Instruction::Jump { target_pc: exit_pc });
                },
            }
        },
        SemanticStmt::Continue => {
            match ctx {
                None => {
                    return Err(ScriptLangError::ContinueOutsideLoop);
                },
                Some((head_pc, _)) => {
                    draft.instructions.push(Instruction::Jump { target_pc: head_pc });
                },
            }
        },
        SemanticStmt::Choice { prompt, options } => {
            proof {
                assert(decreases_to!(st => options));
            }
            return lower_choice(draft, prompt, options, ctx);
        },
        SemanticStmt::Goto { expr } => {
            draft.instructions.push(Instruction::JumpScriptExpr { expr: lower_resolved_vars_to_runtime_names(expr.as_str()) });
        },
        SemanticStmt::End => {
            draft.instructions.push(Instruction::End);
        },
    }
    proof {
        assert(draft.instructions@.take(pc as int) =~= before.instructions@);
        assert(spec_instr_views(draft.instructions@.skip(pc as int)) =~= seq![spec_instr_view(draft.instructions@[pc as int])]);
    }
    Ok(())
}

/// Appends the instructions of a block, statement after statement.
fn lower_block(draft: &mut ScriptDraft, body: &Vec<SemanticStmt>, ctx: Option<(usize, usize)>) -> (r: Result<(), ScriptLangError>)
    requires
        old(draft).wf(),
        old(draft).instructions@.len() + spec_block_len(spec_stmt_views(body@)) <= usize::MAX,
    ensures
        final(draft).wf(),
        spec_lowered(r, spec_lower_block(spec_stmt_views(body@), old(draft).instructions@.len() as int, spec_ctx(ctx), old(draft).locals()), *old(draft), *final(draft), spec_block_len(spec_stmt_views(body@))),
    decreases body, 0nat,
{
    let ghost views = spec_stmt_views(body@);
    let ghost before = *draft;
    let ghost pc0 = draft.instructions@.len();
    proof {
        lemma_stmt_views_index(body@);
        assert(views.skip(0) =~= views);
        assert(draft.instructions@.skip(pc0 as int) =~= Seq::<Instruction>::empty());
        assert(draft.instructions@.take(pc0 as int) =~= before.instructions@);
        match spec_lower_block(views, pc0 as int, spec_ctx(ctx), before.locals()) {
            Ok((rest, lf)) => {
                assert(spec_instr_views(draft.instructions@.skip(pc0 as int)) + rest =~= rest);
            },
            Err(e) => {},
        }
    }
    let mut i: usize = 0;
    while i < body.len()
        invariant
            draft.wf(),
            views == spec_stmt_views(body@),
            views.len() == body@.len(),
            forall|j: int| 0 <= j < body@.len() ==> #[trigger] views[j] == spec_stmt_view(body@[j]),
            i <= body@.len(),
            pc0 == before.instructions@.len(),
            before == *old(draft),
            draft.instructions@.len() >= pc0,
            draft.instructions@.take(pc0 as int) == before.instructions@,
            pc0 + spec_block_len(views) <= usize::MAX,
            draft.instructions@.len() + spec_block_len(views.skip(i as int)) == pc0 + spec_block_len(views),
            match spec_lower_block(views.skip(i as int), draft.instructions@.len() as int, spec_ctx(ctx), draft.locals()) {
                Ok((rest, lf)) => spec_lower_block(views, pc0 as int, spec_ctx(ctx), before.locals())
                    == Ok::<(Seq<InstrView>, Seq<Seq<char>>), ErrorView>((spec_instr_views(draft.instructions@.skip(pc0 as int)) + rest, lf)),
                Err(e) => spec_lower_block(views, pc0 as int, spec_ctx(ctx), before.locals())
                    == Err::<(Seq<InstrView>, Seq<Seq<char>>), ErrorView>(e),
            },
        decreases body@.len() - i,
    {
        let ghost mid = *draft;
        let ghost tail = views.skip(i as int);
        proof {
            assert(tail[0] == views[i as int]);
            assert(tail.drop_first() =~= views.skip(i + 1));
            assert(decreases_to!(body => body@[i as int]));
        }
        match lower_stmt(draft, &body[i], ctx) {
            Ok(()) => {},
            Err(e) => {
                assert(spec_lower_block(tail, mid.instructions@.len() as int, spec_ctx(ctx), mid.locals())
                    == Err::<(Seq<InstrView>, Seq<Seq<char>>), ErrorView>(e@));
                return Err(e);
            },
        }
        proof {
            let added = spec_instr_views(draft.instructions@.skip(mid.instructions@.len() as int));
            let prev = spec_instr_views(mid.instructions@.skip(pc0 as int));
            assert(draft.instructions@.take(pc0 as int) =~= before.instructions@) by {
                assert(draft.instructions@.take(mid.instructions@.len() as int) == mid.instructions@);
                assert(mid.instructions@.take(pc0 as int) == before.instructions@);
            }
            assert(spec_instr_views(draft.instructions@.skip(pc0 as int)) =~= prev + added) by {
                assert(draft.instructions@.take(mid.instructions@.len() as int) == mid.instructions@);
            }
            match spec_lower_block(views.skip(i + 1), draft.instructions@.len() as int, spec_ctx(ctx), draft.locals()) {
                Ok((rest, lf)) => {
                    assert(prev + added + rest =~= prev + (added + rest));
                },
                Err(e) => {},
            }
        }
        i = i + 1;
    }
    proof {
        assert(views.skip(i as int) =~= Seq::<StmtView>::empty());
        match spec_lower_block(views, pc0 as int, spec_ctx(ctx), before.locals()) {
            Ok((all, lf)) => {
                assert(spec_instr_views(draft.instructions@.skip(pc0 as int)) + Seq::<InstrView>::empty() =~= spec_instr_views(draft.instructions@.skip(pc0 as int)));
            },
            Err(e) => {},
        }
    }
    Ok(())
}

pub open spec fn spec_branch_views(v: Seq<ChoiceBranch>) -> Seq<(Seq<PartView>, nat)> {
    v.map_values(|b: ChoiceBranch| (spec_text_view(b.text), b.target_pc as nat))
}

pub open spec fn spec_prompt_view(prompt: Option<TextTemplate>) -> Option<Seq<SegmentView>> {
    match prompt {
        Some(p) => Some(p@),
        None => None,
    }
}

/// Appends a choice: its table (prompt and one entry per option), then each
/// option's body followed by a jump past the last body.
fn lower_choice(
    draft: &mut ScriptDraft,
    prompt: &Option<TextTemplate>,
    options: &Vec<SemanticChoiceOption>,
    ctx: Option<(usize, usize)>,
) -> (r: Result<(), ScriptLangError>)
    requires
        old(draft).wf(),
        old(draft).instructions@.len() + 1 + spec_options_len(spec_option_views(options@)) <= usize::MAX,
    ensures
        final(draft).wf(),
        spec_lowered(
            r,
            spec_lower_stmt(
                StmtView::Choice { prompt: spec_prompt_view(*prompt), options: spec_option_views(options@) },
                old(draft).instructions@.len() as int,
                spec_ctx(ctx),
                old(draft).locals(),
            ),
            *old(draft),
            *final(draft),
            1 + spec_options_len(spec_option_views(options@)),
        ),
    decreases options, 1nat,
{
    let ghost ov = spec_option_views(options@);
    let ghost before = *draft;
    let pc = draft.instructions.len();
    let total = options_code_len(options);
    let join = pc + 1 + total;
    let placeholder = match prompt {
        Some(p) => Some(lower_text_template(p)),
        None => None,
    };
    draft.instructions.push(Instruction::BuildChoice { prompt: placeholder, options: Vec::new() });
    let ghost start = *draft;
    let mut branches: Vec<ChoiceBranch> = Vec::new();
    proof {
        lemma_option_views_index(options@);
        assert(ov.skip(0) =~= ov);
        assert(draft.instructions@.skip(pc + 1) =~= Seq::<Instruction>::empty());
        match spec_lower_options(ov, pc + 1, join as int, spec_ctx(ctx), before.locals()) {
            Ok((rest, rb, lf)) => {
                assert(spec_instr_views(draft.instructions@.skip(pc + 1)) + rest =~= rest);
                assert(spec_branch_views(branches@) + rb =~= rb);
            },
            Err(e) => {},
        }
    }
    let mut i: usize = 0;
    while i < options.len()
        invariant
            draft.wf(),
            ov == spec_option_views(options@),
            ov.len() == options@.len(),
            forall|j: int| 0 <= j < options@.len() ==> #[trigger] ov[j] == (options@[j].text@, spec_stmt_views(options@[j].body@)),
            i <= options@.len(),
            pc == before.instructions@.len(),
            before == *old(draft),
            join == pc + 1 + spec_options_len(ov),
            join <= usize::MAX,
            draft.instructions@.len() >= pc + 1,
            draft.instructions@.take(pc + 1) == start.instructions@,
            start.instructions@.take(pc as int) == before.instructions@,
            draft.instructions@.len() + spec_options_len(ov.skip(i as int)) == pc + 1 + spec_options_len(ov),
            match spec_lower_options(ov.skip(i as int), draft.instructions@.len() as int, join as int, spec_ctx(ctx), draft.locals()) {
                Ok((rest, rb, lf)) => spec_lower_options(ov, pc + 1, join as int, spec_ctx(ctx), before.locals())
                    == Ok::<(Seq<InstrView>, Seq<(Seq<PartView>, nat)>, Seq<Seq<char>>), ErrorView>(
                        (spec_instr_views(draft.instructions@.skip(pc + 1)) + rest, spec_branch_views(branches@) + rb, lf),
                    ),
                Err(e) => spec_lower_options(ov, pc + 1, join as int, spec_ctx(ctx), before.locals())
                    == Err::<(Seq<InstrView>, Seq<(Seq<PartView>, nat)>, Seq<Seq<char>>), ErrorView>(e),
            },
        decreases options@.len() - i,
    {
        let ghost mid = *draft;
        let ghost tail = ov.skip(i as int);
        let ghost old_branches = branches@;
        proof {
            assert(tail[0] == ov[i as int]);
            assert(tail.drop_first() =~= ov.skip(i + 1));
            assert(decreases_to!(options => options@[i as int]));
            assert(decreases_to!(options@[i as int] => options@[i as int].body));
        }
        let target_pc = draft.instructions.len();
        let option = &options[i];
        let text = lower_text_template(&option.text);
        branches.push(ChoiceBranch { text, target_pc });
        match lower_block(draft, &option.body, ctx) {
            Ok(()) => {},
            Err(e) => {
                assert(spec_lower_options(tail, mid.instructions@.len() as int, join as int, spec_ctx(ctx), mid.locals())
                    == Err::<(Seq<InstrView>, Seq<(Seq<PartView>, nat)>, Seq<Seq<char>>), ErrorView>(e@));
                return Err(e);
            },
        }
        let ghost after_body = *draft;
        draft.instructions.push(Instruction::Jump { target_pc: join });
        proof {
            let added = spec_instr_views(after_body.instructions@.skip(mid.instructions@.len() as int));
            let prev = spec_instr_views(mid.instructions@.skip(pc + 1));
            assert(draft.instructions@.take(pc + 1) =~= start.instructions@) by {
                assert(after_body.instructions@.take(mid.instructions@.len() as int) == mid.instructions@);
                assert(mid.instructions@.take(pc + 1) == start.instructions@);
            }
            assert(spec_instr_views(draft.instructions@.skip(pc + 1)) =~= prev + added + seq![InstrView::Jump { target_pc: join as nat }]) by {
                assert(after_body.instructions@.take(mid.instructions@.len() as int) == mid.instructions@);
            }
            assert(spec_branch_views(branches@) =~= spec_branch_views(old_branches).push((spec_lower_text(ov[i as int].0), target_pc as nat)));
            match spec_lower_options(ov.skip(i + 1), draft.instructions@.len() as int, join as int, spec_ctx(ctx), draft.locals()) {
                Ok((rest, rb, lf)) => {
                    assert(prev + added + seq![InstrView::Jump { target_pc: join as nat }] + rest =~= prev + (added + seq![InstrView::Jump { target_pc: join as nat }] + rest));
                    assert(spec_branch_views(branches@) + rb =~= spec_branch_views(old_branches) + (seq![(spec_lower_text(ov[i as int].0), target_pc as nat)] + rb));
                },
                Err(e) => {},
            }
        }
        i = i + 1;
    }
    let ghost before_set = *draft;
    let table_prompt = match prompt {
        Some(p) => Some(lower_text_template(p)),
        None => None,
    };
    let ghost bv = spec_branch_views(branches@);
    draft.instructions.set(pc, Instruction::BuildChoice { prompt: table_prompt, options: branches });
    proof {
        assert(ov.skip(i as int) =~= Seq::<(Seq<SegmentView>, Seq<StmtView>)>::empty());
        assert(draft.instructions@.take(pc as int) =~= before.instructions@) by {
            assert(before_set.instructions@.take(pc + 1) == start.instructions@);
            assert(start.instructions@.take(pc as int) == before.instructions@);
        }
        let body_code = spec_instr_views(before_set.instructions@.skip(pc + 1));
        assert(spec_instr_views(draft.instructions@.skip(pc as int)) =~= seq![spec_instr_view(draft.instructions@[pc as int])] + body_code);
        match spec_lower_options(ov, pc + 1, join as int, spec_ctx(ctx), before.locals()) {
            Ok((all, rb, lf)) => {
                assert(body_code + Seq::<InstrView>::empty() =~= body_code);
                assert(bv + Seq::<(Seq<PartView>, nat)>::empty() =~= bv);
            },
            Err(e) => {},
        }
    }
    Ok(())
}

/// Lowers a script: its body, then `End` unless the body already ends by
/// ending or jumping to a script.
pub fn lower_script(draft: &mut ScriptDraft, script: &SemanticScript) -> (r: Result<(), ScriptLangError>)
    requires
        old(draft).wf(),
        old(draft).instructions@.len() + spec_block_len(spec_stmt_views(script.body@)) < usize::MAX,
    ensures
        final(draft).wf(),
        match r {
            Ok(()) => spec_lower_block(spec_stmt_views(script.body@), old(draft).instructions@.len() as int, None, old(draft).locals()) matches Ok((code, lf))
                && lf == final(draft).locals()
                && spec_instr_views(final(draft).instructions@) == spec_instr_views(old(draft).instructions@) + code + spec_end_after(spec_instr_views(old(draft).instructions@) + code),
            Err(e) => spec_lower_block(spec_stmt_views(script.body@), old(draft).instructions@.len() as int, None, old(draft).locals())
                == Err::<(Seq<InstrView>, Seq<Seq<char>>), ErrorView>(e@),
        },
{
    let ghost before = *draft;
    match lower_block(draft, &script.body, None) {
        Ok(()) => {},
        Err(e) => {
            return Err(e);
        },
    }
    let ghost mid = *draft;
    proof {
        assert(draft.instructions@ =~= draft.instructions@.take(before.instructions@.len() as int) + draft.instructions@.skip(before.instructions@.len() as int));
    }
    let n = draft.instructions.len();
    let ends = n > 0 && match &draft.instructions[n - 1] {
        Instruction::End => true,
        Instruction::JumpScript { .. } => true,
        Instruction::JumpScriptExpr { .. } => true,
        _ => false,
    };
    if !ends {
        draft.instructions.push(Instruction::End);
    }
    proof {
        let all = spec_instr_views(mid.instructions@);
        assert(all =~= spec_instr_views(before.instructions@) + spec_instr_views(mid.instructions@.skip(before.instructions@.len() as int)));
        if n > 0 {
            assert(all.last() == spec_instr_view(mid.instructions@[n - 1]));
        }
        assert(spec_instr_views(draft.instructions@) =~= all + spec_end_after(all));
    }
    Ok(())
}

/// `End` when the instructions do not already end by ending or jumping to a
/// script.
pub open spec fn spec_end_after(instrs: Seq<InstrView>) -> Seq<InstrView> {
    if instrs.len() > 0 && (instrs.last() is End || instrs.last() is JumpScript || instrs.last() is JumpScriptExpr) {
        Seq::empty()
    } else {
        seq![InstrView::End]
    }
}

} // verus!
