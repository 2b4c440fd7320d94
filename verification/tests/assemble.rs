use sl_compiler::assemble::{assemble_artifact, assemble_artifact_with_options, ProgramAssembler};
use sl_compiler::errors::DeclaredType;
use sl_compiler::expr::template::{TextSegment, TextTemplate};
use sl_compiler::lower::Instruction;
use sl_compiler::names::resolved_var_placeholder;
use sl_compiler::pipeline::CompileOptions;
use sl_compiler::semantic::{
    SemanticChoiceOption, SemanticFunction, SemanticModule, SemanticProgram, SemanticScript, SemanticStmt, SemanticVar,
};

fn program(modules: Vec<SemanticModule>) -> SemanticProgram {
    SemanticProgram { modules }
}

fn module(name: &str, vars: Vec<SemanticVar>, scripts: Vec<SemanticScript>) -> SemanticModule {
    SemanticModule { name: name.to_string(), functions: Vec::new(), vars, scripts }
}

fn script(name: &str, body: Vec<SemanticStmt>) -> SemanticScript {
    SemanticScript { name: name.to_string(), body }
}

fn var(name: &str, expr: &str) -> SemanticVar {
    SemanticVar { name: name.to_string(), declared_type: DeclaredType::Int, expr: expr.to_string() }
}

fn literal(text: &str) -> TextTemplate {
    TextTemplate { segments: vec![TextSegment::Literal(text.to_string())] }
}

#[test]
fn mod_assemble_artifact_requires_at_least_one_script() {
    let error = assemble_artifact(&program(vec![module("main", Vec::new(), Vec::new())])).expect_err("should fail");
    assert_eq!(error.to_string(), "no <script> declarations found");
}

#[test]
fn assemble_assemble_artifact_requires_at_least_one_script() {
    let error = assemble_artifact(&program(vec![module("main", Vec::new(), Vec::new())])).expect_err("should fail");
    assert_eq!(error.to_string(), "no <script> declarations found");
}

#[test]
fn assemble_artifact_requires_main_main_as_default_entry() {
    let error = assemble_artifact(&program(vec![module("main", Vec::new(), vec![script("entry", vec![SemanticStmt::End])])]))
        .expect_err("missing main.main should fail");
    assert_eq!(error.to_string(), "default entry script `main.main` does not exist");
}

#[test]
fn assemble_artifact_allows_custom_default_entry_script() {
    let artifact = assemble_artifact_with_options(
        &program(vec![module("main", Vec::new(), vec![script("entry", vec![SemanticStmt::End])])]),
        &CompileOptions { default_entry_script_ref: "main.entry".to_string() },
    )
    .expect("custom entry should compile");
    assert_eq!(artifact.default_entry_script_id, 0);
}

#[test]
fn mod_assemble_artifact_collects_globals_and_lowers_scripts() {
    let artifact = assemble_artifact(&program(vec![module(
        "main",
        vec![var("answer", "40 + 2")],
        vec![
            script(
                "main",
                vec![
                    SemanticStmt::Temp { name: "x".to_string(), declared_type: DeclaredType::Int, expr: "1".to_string() },
                    SemanticStmt::Choice {
                        prompt: Some(literal("pick")),
                        options: vec![
                            SemanticChoiceOption {
                                text: literal("left"),
                                body: vec![SemanticStmt::Goto { expr: "\"main.target\"".to_string() }],
                            },
                            SemanticChoiceOption { text: literal("right"), body: vec![SemanticStmt::End] },
                        ],
                    },
                ],
            ),
            script("target", vec![SemanticStmt::End]),
        ],
    )]))
    .expect("lower");

    assert_eq!(artifact.default_entry_script_id, 0);
    assert_eq!(artifact.boot_script_id, 2);
    assert_eq!(artifact.globals[0].runtime_name, "__sl_globalmain_answer");
    assert!(matches!(
        &artifact.scripts[0].instructions[0],
        Instruction::EvalTemp { local_id, expr } if *local_id == 0 && expr == "1"
    ));
    assert!(matches!(
        &artifact.scripts[0].instructions[1],
        Instruction::BuildChoice { prompt, options } if prompt.is_some() && options.len() == 2
    ));
}

#[test]
fn assemble_artifact_rejects_duplicate_script_refs_and_allows_same_named_globals() {
    let duplicate_script = assemble_artifact(&program(vec![module(
        "main",
        Vec::new(),
        vec![script("main", vec![SemanticStmt::End]), script("main", vec![SemanticStmt::End])],
    )]))
    .expect_err("duplicate script should fail");
    assert_eq!(duplicate_script.to_string(), "duplicate script declaration `main.main`");

    let artifact = assemble_artifact(&program(vec![
        module("main", vec![var("name", "1")], vec![script("main", vec![SemanticStmt::End])]),
        module("b", vec![var("name", "2")], vec![script("main", vec![SemanticStmt::End])]),
    ]))
    .expect("same short globals should be allowed");
    assert_eq!(artifact.globals.len(), 2);
    assert_eq!(artifact.globals[0].runtime_name, "__sl_globalmain_name");
    assert_eq!(artifact.globals[1].runtime_name, "__sl_globalb_name");
}

#[test]
fn assembler_collect_rejects_duplicate_script_refs() {
    let error = assemble_artifact(&program(vec![module(
        "main",
        Vec::new(),
        vec![script("entry", vec![SemanticStmt::End]), script("entry", vec![SemanticStmt::End])],
    )]))
    .expect_err("should fail");
    assert_eq!(error.to_string(), "duplicate script declaration `main.entry`");
}

#[test]
fn assemble_rejects_duplicate_functions() {
    let f = |name: &str| SemanticFunction {
        name: name.to_string(),
        param_names: Vec::new(),
        return_type: DeclaredType::Int,
        body: "return 1;".to_string(),
    };
    let mut main = module("main", Vec::new(), vec![script("main", vec![SemanticStmt::End])]);
    main.functions = vec![f("pick"), f("pick")];
    let error = assemble_artifact(&program(vec![main])).expect_err("duplicate function");
    assert_eq!(error.to_string(), "duplicate function declaration `main.pick`");
}

#[test]
fn assemble_compiles_functions_and_boot_initializers_to_runtime_names() {
    let placeholder = resolved_var_placeholder("main.answer");
    let mut main = module(
        "main",
        vec![var("answer", "41"), var("next", &format!("{placeholder} + 1"))],
        vec![script("main", vec![SemanticStmt::Code { code: "x".to_string() }])],
    );
    main.functions = vec![SemanticFunction {
        name: "bump".to_string(),
        param_names: vec!["by".to_string()],
        return_type: DeclaredType::Int,
        body: format!("{placeholder} + by"),
    }];
    let artifact = assemble_artifact(&program(vec![main])).expect("assemble");

    let (_, compiled) = &artifact.functions.entries[0];
    assert_eq!(artifact.functions.entries[0].0, "main.bump");
    assert_eq!(compiled.param_names, vec!["by".to_string()]);
    assert_eq!(compiled.body, "__sl_globalmain_answer + by");
    assert_eq!(artifact.script_refs.entries, vec![("main.main".to_string(), 0usize)]);

    let boot = &artifact.scripts[artifact.boot_script_id];
    assert_eq!(boot.script_id, 1);
    assert!(boot.local_names.is_empty());
    assert!(matches!(&boot.instructions[0], Instruction::EvalGlobalInit { global_id, expr } if *global_id == 0 && expr == "41"));
    assert!(matches!(
        &boot.instructions[1],
        Instruction::EvalGlobalInit { global_id, expr } if *global_id == 1 && expr == "__sl_globalmain_answer + 1"
    ));
    assert!(matches!(&boot.instructions[2], Instruction::JumpScript { script_id } if *script_id == 0));
    assert!(matches!(artifact.scripts[0].instructions.last(), Some(Instruction::End)));
}

#[test]
fn mod_build_boot_script_is_empty_except_for_jump_when_no_globals_exist() {
    let builder = ProgramAssembler::new();
    assert!(matches!(
        builder.build_boot_script(3).as_slice(),
        [Instruction::JumpScript { script_id }] if *script_id == 3
    ));
}

#[test]
fn assemble_build_boot_script_is_empty_except_for_jump_when_no_globals_exist() {
    let builder = ProgramAssembler::new();
    assert!(matches!(
        builder.build_boot_script(3).as_slice(),
        [Instruction::JumpScript { script_id }] if *script_id == 3
    ));
}
