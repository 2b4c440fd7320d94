use sl_compiler::binding::{
    bind_explicit_params, bind_legacy_protocol, bind_macro_params, extract_invocation_attributes,
    extract_invocation_content,
};
use sl_compiler::collections::NameMap;
use sl_compiler::env::{ExpandEnv, LegacyProtocol, MacroDefinition, MacroParam, ProgramState};
use sl_compiler::form::{Form, FormField, FormItem, FormMeta, FormValue, SourcePosition};
use sl_compiler::macro_registry::{collect_program_macros, parse_macro_definition};
use sl_compiler::macros::{MacroParamType, MacroValue};
use sl_compiler::quote::MacroEnv;

fn meta() -> FormMeta {
    FormMeta {
        source_name: Some("main.xml".to_string()),
        start: SourcePosition { row: 1, column: 1 },
        end: SourcePosition { row: 1, column: 20 },
        start_byte: 0,
        end_byte: 20,
    }
}

fn form(head: &str, fields: Vec<FormField>) -> Form {
    Form { head: head.to_string(), meta: meta(), fields }
}

fn attr(name: &str, value: &str) -> FormField {
    FormField { name: name.to_string(), value: FormValue::String(value.to_string()) }
}

fn children(items: Vec<FormItem>) -> FormField {
    FormField { name: "children".to_string(), value: FormValue::Sequence(items) }
}

fn child(form: Form) -> FormItem {
    FormItem::Form(form)
}

fn text_item(value: &str) -> FormItem {
    FormItem::Text(value.to_string())
}

fn form_item(head: &str, attrs: Vec<(&str, &str)>, items: Vec<FormItem>) -> FormItem {
    let mut fields: Vec<FormField> = attrs.into_iter().map(|(name, value)| attr(name, value)).collect();
    fields.push(children(items));
    FormItem::Form(form(head, fields))
}

fn definition(module_name: &str, name: &str, body: Vec<FormItem>) -> MacroDefinition {
    MacroDefinition {
        module_name: module_name.to_string(),
        name: name.to_string(),
        params: None,
        legacy_protocol: None,
        body,
    }
}

fn register_macro(env: &mut ExpandEnv, module_name: &str, name: &str, body: Vec<FormItem>) {
    env.program.register_macro(definition(module_name, name, body)).expect("register macro");
}

fn helper_macro_module() -> Form {
    form(
        "module",
        vec![
            attr("name", "helper"),
            children(vec![child(form(
                "macro",
                vec![
                    attr("name", "mk"),
                    children(vec![
                        child(form(
                            "let",
                            vec![
                                attr("name", "script_name"),
                                attr("type", "string"),
                                children(vec![child(form(
                                    "get-attribute",
                                    vec![attr("name", "name"), children(vec![])],
                                ))]),
                            ],
                        )),
                        child(form(
                            "quote",
                            vec![children(vec![child(form(
                                "script",
                                vec![
                                    attr("name", "${script_name}"),
                                    children(vec![child(form("end", vec![children(vec![])]))]),
                                ],
                            ))])],
                        )),
                    ]),
                ],
            ))]),
        ],
    )
}

fn context_label(env: &MacroEnv) -> String {
    let module_name = env.current_module.as_deref().unwrap_or("<unknown>");
    format!(
        "macro `{}` in module `{}` ({} imports, {} requires, {} aliases)",
        env.macro_name,
        module_name,
        env.imports.len(),
        env.requires.len(),
        env.aliases.len()
    )
}

#[test]
fn program_macro_registry_resolves_required_module_macros() {
    let forms = vec![
        helper_macro_module(),
        form(
            "module",
            vec![
                attr("name", "main"),
                children(vec![child(form("require", vec![attr("name", "helper"), children(vec![])]))]),
            ],
        ),
    ];

    let mut env = ExpandEnv::default();
    collect_program_macros(&forms, &mut env).expect("collect macros");

    assert!(env.program.resolve_macro(Some("main"), &["helper".to_string()], "mk").is_some());
}

#[test]
fn program_macro_registry_does_not_use_imports_for_macro_visibility() {
    let forms = vec![
        form(
            "module",
            vec![
                attr("name", "helper"),
                children(vec![child(form(
                    "macro",
                    vec![
                        attr("name", "mk"),
                        children(vec![child(form(
                            "quote",
                            vec![children(vec![child(form(
                                "script",
                                vec![
                                    attr("name", "nested"),
                                    children(vec![child(form("end", vec![children(vec![])]))]),
                                ],
                            ))])],
                        ))]),
                    ],
                ))]),
            ],
        ),
        form(
            "module",
            vec![
                attr("name", "main"),
                children(vec![child(form("import", vec![attr("name", "helper"), children(vec![])]))]),
            ],
        ),
    ];

    let mut env = ExpandEnv::default();
    collect_program_macros(&forms, &mut env).expect("collect macros");

    assert!(env.program.resolve_macro(Some("main"), &[], "mk").is_none());
}

#[test]
fn collect_program_macros_flattens_nested_module_macro_namespaces() {
    let forms = vec![form(
        "module",
        vec![
            attr("name", "main"),
            children(vec![child(form(
                "module",
                vec![
                    attr("name", "helper"),
                    children(vec![child(form(
                        "macro",
                        vec![
                            attr("name", "mk"),
                            children(vec![child(form(
                                "quote",
                                vec![children(vec![child(form(
                                    "script",
                                    vec![
                                        attr("name", "nested"),
                                        children(vec![child(form("end", vec![children(vec![])]))]),
                                    ],
                                ))])],
                            ))]),
                        ],
                    ))]),
                ],
            ))]),
        ],
    )];

    let mut env = ExpandEnv::default();
    collect_program_macros(&forms, &mut env).expect("collect macros");

    assert!(env.program.resolve_macro(Some("main.helper"), &[], "mk").is_some());
}

#[test]
fn program_macro_registry_rejects_same_name_duplicates() {
    let forms = vec![form(
        "module",
        vec![
            attr("name", "helper"),
            children(vec![
                child(form(
                    "macro",
                    vec![attr("name", "dup"), children(vec![child(form("end", vec![children(vec![])]))])],
                )),
                child(form(
                    "macro",
                    vec![
                        attr("name", "dup"),
                        children(vec![child(form(
                            "quote",
                            vec![children(vec![child(form(
                                "script",
                                vec![
                                    attr("name", "${script_name}"),
                                    children(vec![child(form("end", vec![children(vec![])]))]),
                                ],
                            ))])],
                        ))]),
                    ],
                )),
            ]),
        ],
    )];

    let mut env = ExpandEnv::default();
    let err = collect_program_macros(&forms, &mut env).expect_err("duplicate macro");
    assert!(err.to_string().contains("duplicate macro declaration"));
}

#[test]
fn collect_program_macros_rejects_non_module_roots_and_unnamed_macros() {
    let mut env = ExpandEnv::default();
    let err = collect_program_macros(&[form("script", vec![children(vec![])])], &mut env).expect_err("root");
    assert_eq!(err.to_string(), "top-level <script> is not supported in MVP at main.xml:1:1");

    let unnamed = vec![form(
        "module",
        vec![attr("name", "main"), children(vec![child(form("macro", vec![children(vec![])]))])],
    )];
    let err = collect_program_macros(&unnamed, &mut env).expect_err("unnamed macro");
    assert_eq!(err.to_string(), "<macro> requires `name` at main.xml:1:1");

    let duplicate = vec![form(
        "module",
        vec![
            attr("name", "main"),
            children(vec![
                child(form("macro", vec![attr("name", "m"), children(vec![])])),
                text_item("  "),
                child(form("macro", vec![attr("name", "m"), children(vec![])])),
            ]),
        ],
    )];
    let mut env = ExpandEnv::default();
    let err = collect_program_macros(&duplicate, &mut env).expect_err("duplicate");
    assert_eq!(err.to_string(), "duplicate macro declaration `main.m` at main.xml:1:1");
    assert!(env.program.resolve_macro(Some("main"), &[], "m").is_some());
}

#[test]
fn duplicate_macro_names_are_rejected_at_registration_time() {
    let mut env = ExpandEnv::default();
    env.begin_module(Some("main".to_string()), None).expect("module");

    register_macro(
        &mut env,
        "kernel",
        "dup",
        vec![form_item("quote", vec![], vec![form_item("end", vec![], vec![])])],
    );
    let err = env
        .program
        .register_macro(definition(
            "kernel",
            "dup",
            vec![form_item("quote", vec![], vec![form_item("script", vec![("name", "main")], vec![])])],
        ))
        .expect_err("duplicate macro");
    assert!(err.contains("duplicate macro declaration"));
}

#[test]
fn parse_macro_definition_requires_children_field() {
    let error = parse_macro_definition(&form("macro", vec![attr("name", "m")]), "main").expect_err("missing children");

    assert!(error.to_string().contains("<macro> requires `children` field"));
}

#[test]
fn parse_macro_definition_reads_name_and_body() {
    let parsed = parse_macro_definition(
        &form("macro", vec![attr("name", "m"), children(vec![text_item("x"), form_item("end", vec![], vec![])])]),
        "main.helper",
    )
    .expect("macro");
    assert_eq!(parsed.module_name, "main.helper");
    assert_eq!(parsed.name, "m");
    assert_eq!(parsed.body.len(), 2);
    assert!(parsed.params.is_none());
    assert!(parsed.legacy_protocol.is_none());
}

#[test]
fn kernel_macros_are_visible_unless_the_kernel_is_required_or_current() {
    let mut program = ProgramState::new();
    program.register_macro(definition("kernel", "k", vec![])).expect("kernel macro");
    program.register_macro(definition("helper", "k", vec![text_item("h")])).expect("helper macro");
    program.register_macro(definition("main", "own", vec![])).expect("main macro");

    assert_eq!(program.resolve_macro(Some("main"), &[], "k").map(|d| d.module_name.as_str()), Some("kernel"));
    assert_eq!(
        program.resolve_macro(Some("main"), &["helper".to_string()], "k").map(|d| d.module_name.as_str()),
        Some("helper")
    );
    assert!(program.resolve_macro(Some("main"), &["kernel".to_string()], "missing").is_none());
    assert!(program.resolve_macro(Some("kernel"), &[], "missing").is_none());
    assert_eq!(program.resolve_macro(Some("main"), &[], "own").map(|d| d.name.as_str()), Some("own"));
    assert!(program.resolve_macro(Some("helper"), &[], "own").is_none());
}

#[test]
fn test_extract_invocation_attributes() {
    let invocation = form("test", vec![attr("name", "value"), attr("other", "123")]);
    let attrs = extract_invocation_attributes(&invocation).unwrap();
    assert_eq!(attrs.get("name"), Some(&"value".to_string()));
    assert_eq!(attrs.get("other"), Some(&"123".to_string()));
}

#[test]
fn extract_invocation_skips_children_and_keeps_last_duplicate() {
    let invocation = form(
        "test",
        vec![attr("a", "1"), children(vec![text_item("body")]), attr("a", "2"), attr("children", "x")],
    );
    let attrs = extract_invocation_attributes(&invocation).unwrap();
    assert_eq!(attrs.get("a"), Some(&"2".to_string()));
    assert_eq!(attrs.get("children"), None);
    assert_eq!(attrs.len(), 1);
    let content = extract_invocation_content(&invocation);
    assert_eq!(content.len(), 1);
    assert!(extract_invocation_content(&form("test", vec![])).is_empty());
}

#[test]
fn macro_env_from_invocation_copies_expand_context() {
    let mut expand_env = ExpandEnv::default();
    expand_env.begin_module(Some("main".to_string()), Some("main.xml".to_string())).ok();
    expand_env.add_import("kernel".to_string());
    expand_env.add_require("helper".to_string());
    expand_env.add_alias("h".to_string(), "helper".to_string()).expect("alias");

    let mut attributes = NameMap::new();
    attributes.insert("when".to_string(), "true".to_string());
    let env = MacroEnv::from_invocation(
        &mut expand_env,
        "unless",
        attributes,
        vec![FormItem::Form(form("text", vec![children(vec![])]))],
    );

    assert_eq!(env.current_module.as_deref(), Some("main"));
    assert_eq!(env.imports, vec!["kernel".to_string()]);
    assert_eq!(env.requires, vec!["helper".to_string()]);
    assert_eq!(env.aliases.get("h").map(String::as_str), Some("helper"));
    assert_eq!(env.macro_name, "unless");
    assert_eq!(env.attributes.get("when").map(String::as_str), Some("true"));
    assert_eq!(env.content.len(), 1);
    assert_eq!(env.locals.len(), 0);
    assert_eq!(env.gensym_seed, 1);
    assert_eq!(env.gensym_counter, 0);
}

#[test]
fn macro_env_context_label_reports_current_context() {
    let mut aliases = NameMap::new();
    aliases.insert("h".to_string(), "helper".to_string());
    let env = MacroEnv {
        current_module: Some("main".to_string()),
        imports: vec!["kernel".to_string()],
        requires: vec!["helper".to_string()],
        aliases,
        macro_name: "unless".to_string(),
        attributes: NameMap::new(),
        content: Vec::new(),
        locals: NameMap::new(),
        gensym_seed: 0,
        gensym_counter: 0,
    };

    assert_eq!(context_label(&env), "macro `unless` in module `main` (1 imports, 1 requires, 1 aliases)");
}

#[test]
fn macro_env_gensym_seed_is_scoped_to_current_module() {
    let mut expand_env = ExpandEnv::default();
    expand_env.begin_module(Some("main".to_string()), Some("main.xml".to_string())).expect("main module");

    let first = MacroEnv::from_invocation(&mut expand_env, "unless", NameMap::new(), vec![]);
    let second = MacroEnv::from_invocation(&mut expand_env, "if_else", NameMap::new(), vec![]);
    assert_eq!(first.gensym_seed, 1);
    assert_eq!(second.gensym_seed, 2);

    expand_env.finish_module();
    expand_env.begin_module(Some("helper".to_string()), Some("helper.xml".to_string())).expect("helper module");

    let helper = MacroEnv::from_invocation(&mut expand_env, "surround", NameMap::new(), vec![]);
    assert_eq!(helper.gensym_seed, 1);
}

#[test]
fn expand_env_tracks_modules_aliases_and_duplicates() {
    let mut env = ExpandEnv::default();
    env.begin_module(Some("main".to_string()), Some("main.xml".to_string())).expect("main");
    env.add_alias("h".to_string(), "helper".to_string()).expect("alias");
    env.add_alias("h".to_string(), "helper".to_string()).expect("same alias again");
    let err = env.add_alias("h".to_string(), "other".to_string()).expect_err("conflicting alias");
    assert_eq!(err, "alias `h` already points to `helper`");
    env.add_child_alias("c".to_string(), "main.c".to_string()).expect("child alias");
    assert_eq!(env.module.child_aliases.get("c").map(String::as_str), Some("main.c"));
    assert!(env.module.exports.vars.insert("v".to_string(), true));
    env.finish_module();
    assert_eq!(env.program.module_order, vec!["main".to_string()]);
    assert_eq!(env.program.modules.get("main").map(|m| m.aliases.len()), Some(2));

    let err = env.begin_module(Some("main".to_string()), None).expect_err("duplicate module");
    assert_eq!(err, "duplicate module declaration `main`");

    env.begin_module(Some("other".to_string()), None).expect("other");
    env.use_caller_module = Some("main".to_string());
    assert!(env.caller_exports_has("v"));
    assert!(!env.caller_exports_has("w"));
    env.pop_use_caller();
    env.push_use_caller();
    assert_eq!(env.use_caller_module.as_deref(), Some("other"));
    assert!(!env.caller_exports_has("v"));
}

#[test]
fn explicit_params_bind_attributes_children_and_keywords() {
    let invocation = form(
        "call",
        vec![attr("flag", "true"), attr("n", "7"), attr("extra", "x"), children(vec![text_item("body")])],
    );
    let attrs = extract_invocation_attributes(&invocation).unwrap();
    let content = extract_invocation_content(&invocation);
    let params = vec![
        MacroParam { param_type: MacroParamType::Bool, name: "flag".to_string() },
        MacroParam { param_type: MacroParamType::Int, name: "n".to_string() },
        MacroParam { param_type: MacroParamType::Ast, name: "body".to_string() },
        MacroParam { param_type: MacroParamType::Keyword, name: "rest".to_string() },
    ];
    let mut env = ExpandEnv::default();
    let bound = bind_explicit_params(&params, &attrs, &content, &invocation, &mut env).expect("bind");
    assert_eq!(bound.locals.get("flag"), Some(&MacroValue::Bool(true)));
    assert_eq!(bound.locals.get("n"), Some(&MacroValue::Int(7)));
    assert_eq!(bound.locals.get("body"), Some(&MacroValue::AstItems(vec![text_item("body")])));
    assert_eq!(
        bound.locals.get("rest"),
        Some(&MacroValue::Keyword(vec![("extra".to_string(), MacroValue::String("extra:x".to_string()))]))
    );
    assert_eq!(bound.gensym_seed, 1);

    let missing = vec![MacroParam { param_type: MacroParamType::String, name: "absent".to_string() }];
    let err = bind_explicit_params(&missing, &attrs, &content, &invocation, &mut env).expect_err("missing");
    assert_eq!(err.to_string(), "missing required parameter `absent` at main.xml:1:1");
}

#[test]
fn legacy_protocol_binds_attributes_and_filtered_content() {
    let invocation = form(
        "call",
        vec![
            attr("when", "x > 1"),
            children(vec![
                form_item("option", vec![], vec![]),
                text_item(" "),
                form_item("text", vec![], vec![]),
            ]),
        ],
    );
    let attrs = extract_invocation_attributes(&invocation).unwrap();
    let content = extract_invocation_content(&invocation);
    let legacy = LegacyProtocol {
        attributes: vec![
            ("when".to_string(), "cond".to_string(), true),
            ("missing".to_string(), "gone".to_string(), false),
        ],
        content: Some(("opts".to_string(), Some("option".to_string()))),
    };
    let mut env = ExpandEnv::default();
    let bound = bind_legacy_protocol(&legacy, &attrs, &content, &mut env);
    assert_eq!(bound.locals.get("cond"), Some(&MacroValue::String("x > 1".to_string())));
    assert_eq!(bound.locals.get("gone"), Some(&MacroValue::Nil));
    assert_eq!(bound.locals.get("opts"), Some(&MacroValue::AstItems(vec![form_item("option", vec![], vec![])])));
    assert_eq!(bound.content.len(), 3);
    assert_eq!(bound.attributes.get("when").map(String::as_str), Some("x > 1"));
}

#[test]
fn bind_macro_params_without_protocol_keeps_invocation_as_is() {
    let invocation = form("call", vec![attr("a", "1"), children(vec![text_item("t")])]);
    let mut env = ExpandEnv::default();
    env.begin_module(Some("main".to_string()), None).expect("module");
    let bound = bind_macro_params(&definition("main", "m", vec![]), &invocation, &mut env).expect("bind");
    assert_eq!(bound.macro_name, "m");
    assert_eq!(bound.current_module.as_deref(), Some("main"));
    assert_eq!(bound.attributes.get("a").map(String::as_str), Some("1"));
    assert_eq!(bound.content.len(), 1);
    assert_eq!(bound.locals.len(), 0);
    assert_eq!(bound.gensym_seed, 1);
}
