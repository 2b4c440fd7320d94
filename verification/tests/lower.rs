use sl_compiler::errors::DeclaredType;
use sl_compiler::expr::template::{TextSegment, TextTemplate};
use sl_compiler::lower::{lower_script, lower_text_template, CompiledTextPart, Instruction, ScriptDraft};
use sl_compiler::semantic::{SemanticChoiceOption, SemanticScript, SemanticStmt};

fn draft() -> ScriptDraft {
    ScriptDraft::new()
}

#[test]
fn lower_script_emits_expected_instructions_from_semantic_script() {
    let mut draft = draft();
    let script = SemanticScript {
        name: "entry".to_string(),
        body: vec![
            SemanticStmt::Temp { name: "x".to_string(), declared_type: DeclaredType::Int, expr: "1".to_string() },
            SemanticStmt::Choice {
                prompt: Some(TextTemplate { segments: vec![TextSegment::Literal("pick".to_string())] }),
                options: vec![SemanticChoiceOption {
                    text: TextTemplate { segments: vec![TextSegment::Literal("left".to_string())] },
                    body: vec![SemanticStmt::Goto { expr: "\"main.target\"".to_string() }],
                }],
            },
        ],
    };

    lower_script(&mut draft, &script).expect("lower");

    assert!(matches!(
        &draft.instructions[0],
        Instruction::EvalTemp { local_id, expr } if *local_id == 0 && expr == "1"
    ));
    assert!(matches!(
        &draft.instructions[1],
        Instruction::BuildChoice { prompt, options } if prompt.is_some() && options.len() == 1
    ));
    assert!(matches!(
        &draft.instructions[2],
        Instruction::JumpScriptExpr { expr } if expr == "\"main.target\""
    ));
}

#[test]
fn lower_script_rewrites_runtime_globals_inside_goto_expression() {
    let mut draft = draft();
    let script = SemanticScript {
        name: "entry".to_string(),
        body: vec![SemanticStmt::Goto { expr: "__sl_var__(main.next)".to_string() }],
    };

    lower_script(&mut draft, &script).expect("lower");

    assert!(matches!(
        &draft.instructions[0],
        Instruction::JumpScriptExpr { expr } if expr == "__sl_globalmain_next"
    ));
    assert_eq!(draft.instructions.len(), 1);
}

#[test]
fn lower_text_template_preserves_literal_and_expression_segments() {
    let lowered = lower_text_template(&TextTemplate {
        segments: vec![TextSegment::Literal("hello ".to_string()), TextSegment::Expr("name".to_string())],
    });

    assert!(matches!(
        lowered.parts.as_slice(),
        [CompiledTextPart::Literal(text), CompiledTextPart::Expr(expr)] if text == "hello " && expr == "name"
    ));
}

#[test]
fn lower_script_covers_code_text_if_end_and_reused_local_ids() {
    let mut draft = draft();
    let script = SemanticScript {
        name: "entry".to_string(),
        body: vec![
            SemanticStmt::Temp { name: "x".to_string(), declared_type: DeclaredType::Int, expr: "1".to_string() },
            SemanticStmt::Code { code: "x = x + 1;".to_string() },
            SemanticStmt::Text {
                template: TextTemplate {
                    segments: vec![TextSegment::Literal("value=".to_string()), TextSegment::Expr("x".to_string())],
                },
                tag: Some("note".to_string()),
            },
            SemanticStmt::While {
                when: "x > 1".to_string(),
                skip_loop_control_capture: true,
                body: vec![
                    SemanticStmt::Temp { name: "x".to_string(), declared_type: DeclaredType::Int, expr: "2".to_string() },
                    SemanticStmt::End,
                ],
            },
        ],
    };

    lower_script(&mut draft, &script).expect("lower");

    assert_eq!(draft.local_names, vec!["x".to_string()]);
    assert!(matches!(&draft.instructions[0], Instruction::EvalTemp { local_id, expr } if *local_id == 0 && expr == "1"));
    assert!(matches!(&draft.instructions[1], Instruction::ExecCode { code } if code == "x = x + 1;"));
    assert!(matches!(
        &draft.instructions[2],
        Instruction::EmitText { text, tag }
            if matches!(text.parts.as_slice(),
                [CompiledTextPart::Literal(prefix), CompiledTextPart::Expr(expr)]
                if prefix == "value=" && expr == "x")
            && tag.as_deref() == Some("note")
    ));
    assert!(matches!(&draft.instructions[3], Instruction::EvalCond { expr } if expr == "x > 1"));
    assert!(matches!(&draft.instructions[4], Instruction::JumpIfFalse { target_pc } if *target_pc == 8));
    assert!(matches!(&draft.instructions[5], Instruction::EvalTemp { local_id, expr } if *local_id == 0 && expr == "2"));
    assert!(matches!(&draft.instructions[6], Instruction::End));
    assert!(matches!(&draft.instructions[7], Instruction::Jump { target_pc } if *target_pc == 3));
}

#[test]
fn lower_script_covers_while_break_and_continue() {
    let mut draft = draft();
    let script = SemanticScript {
        name: "entry".to_string(),
        body: vec![SemanticStmt::While {
            when: "flag".to_string(),
            skip_loop_control_capture: false,
            body: vec![
                SemanticStmt::Continue,
                SemanticStmt::Break,
                SemanticStmt::Text {
                    template: TextTemplate { segments: vec![TextSegment::Literal("never".to_string())] },
                    tag: None,
                },
            ],
        }],
    };

    lower_script(&mut draft, &script).expect("lower");

    assert!(matches!(&draft.instructions[0], Instruction::EvalCond { expr } if expr == "flag"));
    assert!(matches!(&draft.instructions[1], Instruction::JumpIfFalse { target_pc } if *target_pc == 6));
    assert!(matches!(&draft.instructions[2], Instruction::Jump { target_pc } if *target_pc == 0));
    assert!(matches!(&draft.instructions[3], Instruction::Jump { target_pc } if *target_pc == 6));
    assert!(matches!(&draft.instructions[4], Instruction::EmitText { .. }));
    assert!(matches!(&draft.instructions[5], Instruction::Jump { target_pc } if *target_pc == 0));
    assert!(matches!(&draft.instructions[6], Instruction::End));
}

#[test]
fn lower_script_rejects_break_and_continue_outside_loop() {
    let break_error = lower_script(
        &mut draft(),
        &SemanticScript { name: "entry".to_string(), body: vec![SemanticStmt::Break] },
    )
    .expect_err("break outside loop");
    assert!(break_error.to_string().contains("only allowed inside <while>"));

    let continue_error = lower_script(
        &mut draft(),
        &SemanticScript { name: "entry".to_string(), body: vec![SemanticStmt::Continue] },
    )
    .expect_err("continue outside loop");
    assert!(continue_error.to_string().contains("only allowed inside <while>"));
}

#[test]
fn lower_script_non_capturing_while_does_not_accept_break_or_continue() {
    let break_error = lower_script(
        &mut draft(),
        &SemanticScript {
            name: "entry".to_string(),
            body: vec![SemanticStmt::While {
                when: "true".to_string(),
                skip_loop_control_capture: true,
                body: vec![SemanticStmt::Break],
            }],
        },
    )
    .expect_err("break should not target synthetic loop");
    assert!(break_error.to_string().contains("only allowed inside <while>"));

    let continue_error = lower_script(
        &mut draft(),
        &SemanticScript {
            name: "entry".to_string(),
            body: vec![SemanticStmt::While {
                when: "true".to_string(),
                skip_loop_control_capture: true,
                body: vec![SemanticStmt::Continue],
            }],
        },
    )
    .expect_err("continue should not target synthetic loop");
    assert!(continue_error.to_string().contains("only allowed inside <while>"));
}

#[test]
fn lower_choice_jumps_every_branch_past_the_last_body() {
    let mut draft = draft();
    let script = SemanticScript {
        name: "entry".to_string(),
        body: vec![SemanticStmt::Choice {
            prompt: None,
            options: vec![
                SemanticChoiceOption {
                    text: TextTemplate { segments: vec![TextSegment::Literal("a".to_string())] },
                    body: vec![SemanticStmt::Code { code: "1".to_string() }],
                },
                SemanticChoiceOption {
                    text: TextTemplate { segments: vec![TextSegment::Literal("b".to_string())] },
                    body: vec![],
                },
            ],
        }],
    };
    lower_script(&mut draft, &script).expect("lower");
    match &draft.instructions[0] {
        Instruction::BuildChoice { prompt, options } => {
            assert!(prompt.is_none());
            assert_eq!(options.len(), 2);
            assert_eq!(options[0].target_pc, 1);
            assert_eq!(options[1].target_pc, 3);
        }
        other => panic!("unexpected {other:?}"),
    }
    assert!(matches!(&draft.instructions[2], Instruction::Jump { target_pc } if *target_pc == 4));
    assert!(matches!(&draft.instructions[3], Instruction::Jump { target_pc } if *target_pc == 4));
    assert!(matches!(&draft.instructions[4], Instruction::End));
}
