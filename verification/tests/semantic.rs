use sl_compiler::collections::{NameMap, NameSet};
use sl_compiler::const_value::ConstValue;
use sl_compiler::errors::DeclaredType;
use sl_compiler::expr::template::TextSegment;
use sl_compiler::form::{Form, FormField, FormItem, FormMeta, FormValue, SourcePosition};
use sl_compiler::resolve::{ConstCatalog, ModuleCatalog, ScopeResolver};
use sl_compiler::scope::{ModuleExports, ModuleMembers, ModulePath, ModuleScope};
use sl_compiler::semantic::{analyze_script, analyze_stmt, parse_declared_type_name, SemanticStmt};

fn meta() -> FormMeta {
    FormMeta {
        source_name: Some("main.xml".to_string()),
        start: SourcePosition { row: 1, column: 1 },
        end: SourcePosition { row: 1, column: 20 },
        start_byte: 0,
        end_byte: 20,
    }
}

fn node(head: &str, attrs: Vec<(&str, &str)>, items: Vec<FormItem>) -> Form {
    let mut fields: Vec<FormField> = attrs
        .into_iter()
        .map(|(k, v)| FormField { name: k.to_string(), value: FormValue::String(v.to_string()) })
        .collect();
    fields.push(FormField { name: "children".to_string(), value: FormValue::Sequence(items) });
    Form { head: head.to_string(), meta: meta(), fields }
}

fn text(value: &str) -> FormItem {
    FormItem::Text(value.to_string())
}

fn child(form: Form) -> FormItem {
    FormItem::Form(form)
}

fn members(names: &[(&str, bool)]) -> ModuleMembers {
    let mut m = ModuleMembers::new();
    for (name, exported) in names {
        m.insert(name.to_string(), *exported);
    }
    m
}

fn exports(consts: &[(&str, bool)], functions: &[(&str, bool)], vars: &[(&str, bool)], scripts: &[(&str, bool)]) -> ModuleExports {
    ModuleExports {
        consts: members(consts),
        functions: members(functions),
        scripts: members(scripts),
        vars: members(vars),
    }
}

fn catalog() -> ModuleCatalog {
    let mut modules = NameMap::new();
    modules.insert("helper".to_string(), exports(&[], &[("pick", true)], &[], &[]));
    modules.insert(
        "main".to_string(),
        exports(&[("answer", true)], &[], &[("next", true)], &[("main", true), ("loop", true)]),
    );
    ModuleCatalog { modules, child_aliases: NameMap::new() }
}

fn const_catalog() -> ConstCatalog {
    let mut main = NameMap::new();
    main.insert("answer".to_string(), ConstValue::Integer(41));
    let mut values = NameMap::new();
    values.insert("main".to_string(), main);
    ConstCatalog { values }
}

fn main_scope() -> ModuleScope {
    let mut aliases = NameMap::new();
    aliases.insert("h".to_string(), ModulePath("helper".to_string()));
    ModuleScope::new("main".to_string(), Vec::new(), aliases)
}

fn const_env() -> NameMap<ConstValue> {
    let mut env = NameMap::new();
    env.insert("answer".to_string(), ConstValue::Integer(41));
    env
}

#[test]
fn analyze_script_covers_statement_variants_and_special_literals() {
    let script = node(
        "script",
        vec![("name", "main")],
        vec![
            child(node("temp", vec![("name", "counter"), ("type", "int")], vec![text("answer")])),
            child(node("code", vec![], vec![text("#h.pick")])),
            child(node("text", vec![("tag", "line")], vec![text("${counter}:${#h.pick}:${@loop}")])),
            child(node(
                "while",
                vec![("when", "counter == 41"), ("__sl_skip_loop_control_capture", "true")],
                vec![child(node("text", vec![], vec![text("ok")]))],
            )),
            child(node(
                "while",
                vec![("when", "counter < 45")],
                vec![child(node("continue", vec![], vec![])), child(node("break", vec![], vec![]))],
            )),
            child(node(
                "choice",
                vec![("text", "pick ${answer}")],
                vec![
                    child(node("option", vec![("text", "A ${#h.pick}")], vec![child(node("text", vec![], vec![text("a")]))])),
                    child(node("option", vec![("text", "B")], vec![child(node("end", vec![], vec![]))])),
                ],
            )),
            child(node("goto", vec![("script", "@loop")], vec![])),
            child(node("end", vec![], vec![])),
        ],
    );
    let modules = catalog();
    let consts = const_catalog();
    let scope = main_scope();
    let resolver = ScopeResolver::new(&modules, &consts, &scope);
    let analyzed = analyze_script(&script, &resolver, &const_env(), &NameSet::new()).expect("analyze");
    assert_eq!(analyzed.name, "main");
    let body = &analyzed.body;

    assert!(matches!(
        &body[0],
        SemanticStmt::Temp { name, declared_type, expr }
            if name == "counter" && *declared_type == DeclaredType::Int && expr == "41"
    ));
    assert!(matches!(&body[1], SemanticStmt::Code { code } if code == "\"helper.pick\""));
    assert!(matches!(
        &body[2],
        SemanticStmt::Text { template, tag }
            if tag.as_deref() == Some("line")
                && matches!(&template.segments[0], TextSegment::Expr(expr) if expr == "counter")
                && matches!(&template.segments[2], TextSegment::Expr(expr) if expr == "\"helper.pick\"")
                && matches!(&template.segments[4], TextSegment::Expr(expr) if expr == "\"main.loop\"")
    ));
    assert!(matches!(
        &body[3],
        SemanticStmt::While { when, body, skip_loop_control_capture: true }
            if when == "counter == 41" && matches!(&body[0], SemanticStmt::Text { .. })
    ));
    assert!(matches!(
        &body[4],
        SemanticStmt::While { when, body, skip_loop_control_capture: false }
            if when == "counter < 45"
                && matches!(&body[0], SemanticStmt::Continue)
                && matches!(&body[1], SemanticStmt::Break)
    ));
    assert!(matches!(
        &body[5],
        SemanticStmt::Choice { prompt: Some(prompt), options }
            if matches!(&prompt.segments[1], TextSegment::Expr(expr) if expr == "41")
                && options.len() == 2
                && matches!(&options[0].text.segments[1], TextSegment::Expr(expr) if expr == "\"helper.pick\"")
    ));
    assert!(matches!(&body[6], SemanticStmt::Goto { expr } if expr == "\"main.loop\""));
    assert!(matches!(&body[7], SemanticStmt::End));
}

fn analyze_one(form: Form) -> Result<SemanticStmt, String> {
    let modules = catalog();
    let consts = const_catalog();
    let scope = main_scope();
    let resolver = ScopeResolver::new(&modules, &consts, &scope);
    let mut shadowed = NameSet::new();
    analyze_stmt(&form, &const_env(), &resolver, &NameSet::new(), &mut shadowed).map_err(|e| e.to_string())
}

#[test]
fn analyze_script_rejects_invalid_statement_forms() {
    let const_error = analyze_one(node("const", vec![("name", "x"), ("type", "int")], vec![text("1")])).expect_err("const in script");
    assert!(const_error.contains("direct <module> child"));
    let import_error = analyze_one(node("import", vec![("name", "helper")], vec![])).expect_err("import in script");
    assert!(import_error.contains("direct <module> child"));
    let choice_error = analyze_one(node("choice", vec![], vec![child(node("text", vec![], vec![text("bad")]))])).expect_err("invalid choice");
    assert!(choice_error.contains("only supports <option> children"));
    let unknown_error = analyze_one(node("unknown", vec![], vec![])).expect_err("unsupported stmt");
    assert!(unknown_error.contains("unsupported statement <unknown>"));
    let break_error = analyze_one(node("break", vec![], vec![child(node("end", vec![], vec![]))])).expect_err("break with children");
    assert!(break_error.contains("<break> does not support nested statements"));
    let loop_error = analyze_one(node(
        "while",
        vec![("when", "true"), ("__sl_skip_loop_control_capture", "maybe")],
        vec![child(node("end", vec![], vec![]))],
    ))
    .expect_err("bad loop attr");
    assert!(loop_error.contains("invalid boolean value `maybe`"));
}

#[test]
fn analyze_stmt_replaces_module_vars_and_keeps_temps() {
    let modules = catalog();
    let consts = const_catalog();
    let scope = main_scope();
    let resolver = ScopeResolver::new(&modules, &consts, &scope);
    let mut shadowed = NameSet::new();
    let temp = analyze_stmt(
        &node("temp", vec![("name", "next"), ("type", "script")], vec![text("next")]),
        &const_env(),
        &resolver,
        &NameSet::new(),
        &mut shadowed,
    )
    .expect("temp");
    assert!(matches!(&temp, SemanticStmt::Temp { expr, .. } if expr == "__sl_var__(main.next)"));
    let code = analyze_stmt(&node("code", vec![], vec![text("next = 1")]), &const_env(), &resolver, &NameSet::new(), &mut shadowed).expect("code");
    assert!(matches!(&code, SemanticStmt::Code { code } if code == "__sl_var__(main.next) = 1"));
    let call = analyze_stmt(&node("code", vec![], vec![text("h.pick(answer)")]), &const_env(), &resolver, &NameSet::new(), &mut shadowed).expect("call");
    assert!(matches!(&call, SemanticStmt::Code { code } if code == "__sl_call(\"helper.pick\", [41])"));
}

#[test]
fn parse_declared_type_name_covers_supported_and_error_paths() {
    assert_eq!(parse_declared_type_name(Some("int"), "var").expect("int"), DeclaredType::Int);
    assert_eq!(parse_declared_type_name(Some("array"), "var").expect("array"), DeclaredType::Array);
    assert_eq!(parse_declared_type_name(Some("object"), "var").expect("object"), DeclaredType::Object);
    let missing = parse_declared_type_name(None, "var").expect_err("missing");
    assert!(sl_compiler::errors::ScriptLangError::At(missing, "1:1".to_string())
        .to_string()
        .contains("<var> requires `type`"));
    let unsupported = parse_declared_type_name(Some("number"), "var").expect_err("unsupported");
    assert!(sl_compiler::errors::ScriptLangError::At(unsupported, "1:1".to_string())
        .to_string()
        .contains("unsupported type `number`"));
}
