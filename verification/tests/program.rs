use sl_compiler::collections::NameMap;
use sl_compiler::const_value::ConstValue;
use sl_compiler::errors::DeclaredType;
use sl_compiler::form::{Form, FormField, FormItem, FormMeta, FormValue, SourcePosition};
use sl_compiler::names::resolved_var_placeholder;
use sl_compiler::env::{ModuleState, ProgramState};
use sl_compiler::program::{analyze_program, parse_function_args};
use sl_compiler::resolve::{alias_name, ConstCatalog, ModuleCatalog};
use sl_compiler::scope::{ModuleExports, ModuleMembers};
use sl_compiler::semantic::{SemanticProgram, SemanticStmt};

fn meta() -> FormMeta {
    FormMeta {
        source_name: Some("main.xml".to_string()),
        start: SourcePosition { row: 1, column: 1 },
        end: SourcePosition { row: 1, column: 50 },
        start_byte: 0,
        end_byte: 50,
    }
}

fn node(head: &str, attrs: Vec<(&str, &str)>, items: Vec<FormItem>) -> Form {
    let mut fields: Vec<FormField> = attrs
        .into_iter()
        .map(|(k, v)| FormField { name: k.to_string(), value: FormValue::String(v.to_string()) })
        .collect();
    fields.push(FormField { name: "children".to_string(), value: FormValue::Sequence(items) });
    Form { head: head.to_string(), meta: meta(), fields }
}

fn text(value: &str) -> FormItem {
    FormItem::Text(value.to_string())
}

fn child(form: Form) -> FormItem {
    FormItem::Form(form)
}

fn members(names: &[&str]) -> ModuleMembers {
    let mut m = ModuleMembers::new();
    for name in names {
        m.insert(name.to_string(), true);
    }
    m
}

/// A module's exports as the expansion records them: every member exported.
fn exports(consts: &[&str], functions: &[&str], vars: &[&str], scripts: &[&str]) -> ModuleExports {
    ModuleExports { consts: members(consts), functions: members(functions), scripts: members(scripts), vars: members(vars) }
}

struct Fixture {
    program: ProgramState,
    catalog: ModuleCatalog,
    consts: ConstCatalog,
}

fn fixture(modules: Vec<(&str, Vec<Form>, ModuleExports)>, const_values: Vec<(&str, &str, ConstValue)>) -> Fixture {
    let mut states = NameMap::new();
    let mut exported = NameMap::new();
    let mut order = Vec::new();
    for (name, children, ex) in modules {
        let mut state = ModuleState::new(Some(name.to_string()));
        state.children = children;
        states.insert(name.to_string(), state);
        exported.insert(name.to_string(), ex);
        order.push(name.to_string());
    }
    let mut values: NameMap<NameMap<ConstValue>> = NameMap::new();
    for (module, name, value) in const_values {
        let mut inner = NameMap::new();
        inner.insert(name.to_string(), value);
        values.insert(module.to_string(), inner);
    }
    Fixture {
        program: ProgramState { modules: states, module_order: order, module_macros: NameMap::new() },
        catalog: ModuleCatalog { modules: exported, child_aliases: NameMap::new() },
        consts: ConstCatalog { values },
    }
}

fn analyzed(f: &Fixture) -> SemanticProgram {
    analyze_program(&f.program, &f.catalog, &f.consts).expect("analyze")
}

fn end_script(name: &str) -> FormItem {
    child(node("script", vec![("name", name)], vec![child(node("end", vec![], vec![]))]))
}

#[test]
fn program_analyze_forms_tracks_declared_type_and_rewrites_script_literals() {
    let f = fixture(
        vec![(
            "main",
            vec![
                node("var", vec![("name", "next"), ("type", "script")], vec![text("@loop")]),
                node(
                    "script",
                    vec![("name", "main")],
                    vec![
                        child(node("goto", vec![("script", "next")], vec![])),
                        child(node("text", vec![], vec![text("${next}")])),
                    ],
                ),
                node("script", vec![("name", "loop")], vec![child(node("end", vec![], vec![]))]),
            ],
            exports(&[], &[], &["next"], &["main", "loop"]),
        )],
        vec![],
    );
    let program = analyzed(&f);
    let module = &program.modules[0];
    assert_eq!(module.vars[0].declared_type, DeclaredType::Script);
    assert_eq!(module.vars[0].expr, "\"main.loop\"");
    assert!(matches!(
        &module.scripts[0].body[0],
        SemanticStmt::Goto { expr } if expr == &resolved_var_placeholder("main.next")
    ));
}

#[test]
fn program_analyze_forms_accepts_script_const_literals_and_refs() {
    let f = fixture(
        vec![(
            "main",
            vec![
                node("const", vec![("name", "target"), ("type", "script")], vec![text("@loop")]),
                node("const", vec![("name", "same_target"), ("type", "script")], vec![text("target")]),
                node("script", vec![("name", "main")], vec![child(node("goto", vec![("script", "same_target")], vec![]))]),
                node("script", vec![("name", "loop")], vec![child(node("end", vec![], vec![]))]),
            ],
            exports(&["target", "same_target"], &[], &[], &["main", "loop"]),
        )],
        vec![],
    );
    let program = analyzed(&f);
    assert!(matches!(
        &program.modules[0].scripts[0].body[0],
        SemanticStmt::Goto { expr } if expr == "\"main.loop\""
    ));
}

#[test]
fn analyze_forms_supports_alias_for_explicit_refs_and_script_literals() {
    let f = fixture(
        vec![
            (
                "helper",
                vec![
                    node("const", vec![("name", "target"), ("type", "script")], vec![text("@entry")]),
                    node("var", vec![("name", "value"), ("type", "int")], vec![text("1")]),
                    node("script", vec![("name", "entry")], vec![child(node("end", vec![], vec![]))]),
                ],
                exports(&["target"], &[], &["value"], &["entry"]),
            ),
            (
                "main",
                vec![
                    node("alias", vec![("name", "helper"), ("as", "h")], vec![]),
                    node("var", vec![("name", "next"), ("type", "script")], vec![text("@h.entry")]),
                    node("var", vec![("name", "copied"), ("type", "int")], vec![text("h.value")]),
                    node(
                        "script",
                        vec![("name", "main")],
                        vec![
                            child(node("goto", vec![("script", "next")], vec![])),
                            child(node("text", vec![], vec![text("${copied}")])),
                        ],
                    ),
                ],
                exports(&[], &[], &["next", "copied"], &["main"]),
            ),
        ],
        vec![("helper", "target", ConstValue::Script("helper.entry".to_string()))],
    );
    let program = analyzed(&f);
    let module = program.modules.iter().find(|module| module.name == "main").expect("main module");
    assert_eq!(module.vars[0].expr, "\"helper.entry\"");
    assert_eq!(module.vars[1].expr, resolved_var_placeholder("helper.value"));
    assert!(matches!(
        &module.scripts[0].body[0],
        SemanticStmt::Goto { expr } if expr == &resolved_var_placeholder("main.next")
    ));
}

#[test]
fn program_analyze_forms_rejects_missing_or_unknown_type_and_invalid_script_const() {
    let missing_type = fixture(
        vec![(
            "main",
            vec![
                node("var", vec![("name", "next")], vec![text("1")]),
                node("script", vec![("name", "main")], vec![child(node("end", vec![], vec![]))]),
            ],
            exports(&[], &[], &["next"], &["main"]),
        )],
        vec![],
    );
    let error = analyze_program(&missing_type.program, &missing_type.catalog, &missing_type.consts)
        .expect_err("missing type should fail");
    assert!(error.to_string().contains("<var> requires `type`"));

    let unknown_type = fixture(
        vec![(
            "main",
            vec![
                node("var", vec![("name", "next"), ("type", "number")], vec![text("1")]),
                node("script", vec![("name", "main")], vec![child(node("end", vec![], vec![]))]),
            ],
            exports(&[], &[], &["next"], &["main"]),
        )],
        vec![],
    );
    let error = analyze_program(&unknown_type.program, &unknown_type.catalog, &unknown_type.consts)
        .expect_err("unknown type should fail");
    assert!(error.to_string().contains("unsupported type `number`"));

    let bad_script_const = fixture(
        vec![(
            "main",
            vec![
                node("const", vec![("name", "target"), ("type", "script")], vec![text("\"not-a-script\"")]),
                node("script", vec![("name", "main")], vec![child(node("end", vec![], vec![]))]),
            ],
            exports(&["target"], &[], &[], &["main"]),
        )],
        vec![],
    );
    let error = analyze_program(&bad_script_const.program, &bad_script_const.catalog, &bad_script_const.consts)
        .expect_err("script const should fail");
    assert!(error.to_string().contains("const declared as `script` must evaluate to a script literal"));
}

#[test]
fn analyze_forms_accepts_function_declarations_and_literals() {
    let f = fixture(
        vec![
            (
                "helper",
                vec![node("function", vec![("name", "pick"), ("return_type", "int")], vec![text("return 1;")])],
                exports(&[], &["pick"], &[], &[]),
            ),
            (
                "main",
                vec![
                    node("alias", vec![("name", "helper"), ("as", "h")], vec![]),
                    node("const", vec![("name", "picker"), ("type", "function")], vec![text("#h.pick")]),
                    node("var", vec![("name", "chosen"), ("type", "function")], vec![text("picker")]),
                    node("script", vec![("name", "main")], vec![child(node("text", vec![], vec![text("${chosen}")]))]),
                ],
                exports(&["picker"], &[], &["chosen"], &["main"]),
            ),
        ],
        vec![],
    );
    let program = analyzed(&f);
    let helper = program.modules.iter().find(|module| module.name == "helper").expect("helper module");
    assert_eq!(helper.functions[0].return_type, DeclaredType::Int);
    assert_eq!(helper.functions[0].param_names, Vec::<String>::new());
    assert_eq!(helper.functions[0].body, "return 1;");

    let main = program.modules.iter().find(|module| module.name == "main").expect("main module");
    assert_eq!(main.vars[0].declared_type, DeclaredType::Function);
    assert_eq!(main.vars[0].expr, "\"helper.pick\"");
}

#[test]
fn analyze_program_reports_missing_state_and_invalid_module_children() {
    let mut f = fixture(
        vec![
            ("kernel", vec![], exports(&[], &[], &[], &[])),
            (
                "main",
                vec![
                    node("require", vec![("name", "kernel")], vec![]),
                    node("function", vec![("name", "pick"), ("return_type", "int")], vec![text("return 1;")]),
                    node("temp", vec![("name", "scratch"), ("type", "int")], vec![text("1")]),
                ],
                exports(&[], &["pick"], &[], &[]),
            ),
        ],
        vec![],
    );
    let invalid_child = analyze_program(&f.program, &f.catalog, &f.consts).expect_err("invalid child");
    assert!(invalid_child.to_string().contains("unsupported <module> child <temp>"));

    f.program.module_order.push("missing".to_string());
    let missing = analyze_program(&f.program, &f.catalog, &f.consts).expect_err("missing module state");
    assert!(missing.to_string().contains("missing expand-time state"));
}

#[test]
fn analyze_program_alias_name_helpers_cover_default_and_error_paths() {
    let alias = node("alias", vec![("name", "main.helper")], vec![]);
    assert_eq!(alias_name(&alias).expect("default alias"), "helper");

    let empty = node("alias", vec![("name", "main.helper"), ("as", "")], vec![]);
    assert!(alias_name(&empty).expect_err("empty alias").to_string().contains("cannot be empty"));

    let invalid = node("alias", vec![("name", "")], vec![]);
    assert!(alias_name(&invalid).expect_err("invalid alias").to_string().contains("requires valid `name`"));
}

#[test]
fn analyze_program_covers_import_validation_and_missing_module_name() {
    let mut f = fixture(
        vec![(
            "main",
            vec![
                node("import", vec![("name", "missing")], vec![]),
                node("script", vec![("name", "main")], vec![child(node("end", vec![], vec![]))]),
            ],
            exports(&[], &[], &[], &["main"]),
        )],
        vec![],
    );
    let import_error = analyze_program(&f.program, &f.catalog, &f.consts).expect_err("bad import");
    assert!(import_error.to_string().contains("imported module `missing` does not exist"));

    let mut states = NameMap::new();
    states.insert("main".to_string(), ModuleState::new(None));
    f.program.modules = states;
    let missing_name = analyze_program(&f.program, &f.catalog, &f.consts).expect_err("missing module name");
    assert!(missing_name.to_string().contains("missing module name in expand state"));
}

#[test]
fn analyze_program_reports_missing_module_state() {
    let mut program = ProgramState::new();
    program.module_order.push("main".to_string());
    let catalog = ModuleCatalog { modules: NameMap::new(), child_aliases: NameMap::new() };
    let consts = ConstCatalog { values: NameMap::new() };
    let error = analyze_program(&program, &catalog, &consts).expect_err("missing module state");
    assert!(error.to_string().contains("module `main` missing expand-time state"));
}

#[test]
fn function_args_parse_types_names_and_reject_duplicates() {
    let f = node("function", vec![("name", "f"), ("args", " int:a , string: b ")], vec![]);
    assert_eq!(parse_function_args(&f).expect("args"), vec!["a".to_string(), "b".to_string()]);
    let none = node("function", vec![("name", "f")], vec![]);
    assert!(parse_function_args(&none).expect("no args").is_empty());
    let blank = node("function", vec![("name", "f"), ("args", "   ")], vec![]);
    assert!(parse_function_args(&blank).expect("blank args").is_empty());
    let dup = node("function", vec![("name", "f"), ("args", "int:a,int:a")], vec![]);
    assert!(parse_function_args(&dup).expect_err("dup").to_string().contains("duplicate function arg `a`"));
    let bad = node("function", vec![("name", "f"), ("args", "a")], vec![]);
    assert!(parse_function_args(&bad).expect_err("bad").to_string().contains("invalid function arg declaration `a`"));
    let unnamed = node("function", vec![("name", "f"), ("args", "int: ")], vec![]);
    assert!(parse_function_args(&unnamed).expect_err("unnamed").to_string().contains("invalid function arg declaration `int:`"));
    let bad_type = node("function", vec![("name", "f"), ("args", "number:a")], vec![]);
    assert!(parse_function_args(&bad_type).expect_err("type").to_string().contains("unsupported type `number`"));
}

#[test]
fn functions_shadow_consts_with_their_arguments() {
    let f = fixture(
        vec![(
            "main",
            vec![
                node("const", vec![("name", "n"), ("type", "int")], vec![text("5")]),
                node("function", vec![("name", "add"), ("args", "int:n"), ("return_type", "int")], vec![text("n + 1")]),
                node("function", vec![("name", "five"), ("return_type", "int")], vec![text("n + 1")]),
            ],
            exports(&["n"], &["add", "five"], &[], &[]),
        )],
        vec![],
    );
    let program = analyzed(&f);
    assert_eq!(program.modules[0].functions[0].param_names, vec!["n".to_string()]);
    assert_eq!(program.modules[0].functions[0].body, "n + 1");
    assert_eq!(program.modules[0].functions[1].body, "5 + 1");
}

#[test]
fn program_analyze_rejects_const_referenced_before_its_definition() {
    let f = fixture(
        vec![(
            "main",
            vec![
                node("const", vec![("name", "x"), ("type", "int")], vec![text("later")]),
                node("const", vec![("name", "later"), ("type", "int")], vec![text("1")]),
                node("script", vec![("name", "main")], vec![child(node("end", vec![], vec![]))]),
            ],
            exports(&["x", "later"], &[], &[], &["main"]),
        )],
        vec![],
    );
    let error = analyze_program(&f.program, &f.catalog, &f.consts).expect_err("forward ref should fail");
    assert!(error.to_string().contains("cannot be referenced before it is defined"), "{}", error.to_string());
}
