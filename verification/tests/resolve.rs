use sl_compiler::collections::NameMap;
use sl_compiler::const_eval::{ConstLookup, QualifiedConstLookup};
use sl_compiler::const_value::ConstValue;
use sl_compiler::form::{Form, FormField, FormMeta, FormValue, SourcePosition};
use sl_compiler::resolve::{alias_name, validate_import_target, ConstCatalog, ModuleCatalog, ScopeResolver};
use sl_compiler::scope::{ModuleExports, ModuleMembers, ModuleScope};

fn meta() -> FormMeta {
    FormMeta {
        source_name: Some("main.xml".to_string()),
        start: SourcePosition { row: 1, column: 1 },
        end: SourcePosition { row: 1, column: 20 },
        start_byte: 0,
        end_byte: 20,
    }
}

fn form(head: &str, attrs: Vec<(&str, &str)>) -> Form {
    Form {
        head: head.to_string(),
        meta: meta(),
        fields: attrs
            .into_iter()
            .map(|(k, v)| FormField { name: k.to_string(), value: FormValue::String(v.to_string()) })
            .collect(),
    }
}

fn members(names: &[(&str, bool)]) -> ModuleMembers {
    let mut m = ModuleMembers::new();
    for (name, exported) in names {
        m.insert(name.to_string(), *exported);
    }
    m
}

fn exports_with(
    consts: &[(&str, bool)],
    functions: &[(&str, bool)],
    vars: &[(&str, bool)],
    scripts: &[(&str, bool)],
) -> ModuleExports {
    ModuleExports {
        consts: members(consts),
        functions: members(functions),
        scripts: members(scripts),
        vars: members(vars),
    }
}

fn program_modules() -> NameMap<ModuleExports> {
    let mut modules = NameMap::new();
    modules.insert("kernel".to_string(), exports_with(&[("zero", true)], &[], &[], &[]));
    modules.insert(
        "helper".to_string(),
        exports_with(
            &[("answer", true), ("hidden", false)],
            &[("pick", true)],
            &[("value", true), ("priv", false)],
            &[("entry", true)],
        ),
    );
    modules.insert(
        "main".to_string(),
        exports_with(&[("local", true)], &[("choose", true)], &[("value", true)], &[("main", true)]),
    );
    modules
}

fn module_order() -> Vec<String> {
    vec!["kernel".to_string(), "helper".to_string(), "main".to_string()]
}

fn build_catalog() -> ModuleCatalog {
    ModuleCatalog::build(program_modules(), NameMap::new(), &module_order()).expect("catalog")
}

fn const_table() -> ConstCatalog {
    let mut kernel = NameMap::new();
    kernel.insert("zero".to_string(), ConstValue::Integer(0));
    let mut helper = NameMap::new();
    helper.insert("answer".to_string(), ConstValue::Integer(42));
    helper.insert("hidden".to_string(), ConstValue::Integer(7));
    let mut main = NameMap::new();
    main.insert("local".to_string(), ConstValue::Integer(1));
    let mut values = NameMap::new();
    values.insert("kernel".to_string(), kernel);
    values.insert("helper".to_string(), helper);
    values.insert("main".to_string(), main);
    ConstCatalog { values }
}

#[test]
fn module_catalog_build_and_script_lookup_cover_basic_paths() {
    let catalog = build_catalog();

    assert!(catalog.contains("kernel"));
    assert_eq!(catalog.resolve_script_literal("main", "@main").expect("script"), "main.main");
    assert_eq!(
        catalog.resolve_script_literal("main", "@helper.entry").expect("qualified"),
        "helper.entry"
    );
    assert_eq!(
        catalog.resolve_function_literal("main", "#choose").expect("function"),
        "main.choose"
    );
    assert_eq!(
        catalog.resolve_function_literal("main", "#helper.pick").expect("qualified function"),
        "helper.pick"
    );
}

#[test]
fn module_catalog_reports_missing_state_and_unknown_script() {
    let mut order = module_order();
    order.push("missing".to_string());
    let build_error = ModuleCatalog::build(program_modules(), NameMap::new(), &order)
        .err()
        .expect("missing module");
    assert!(build_error.to_string().contains("missing expand-time state"));

    let catalog = build_catalog();
    let script_error = catalog
        .resolve_script_literal("main", "@helper.nope")
        .expect_err("unknown script");
    assert!(script_error.to_string().contains("unknown script"));
    let function_error = catalog
        .resolve_function_literal("main", "#helper.nope")
        .expect_err("unknown function");
    assert!(function_error.to_string().contains("unknown function"));
}

#[test]
fn module_catalog_rejects_missing_module_and_invalid_literal_shapes() {
    let catalog = build_catalog();

    let missing = catalog.exports("missing").err().expect("missing module");
    assert!(missing.to_string().contains("does not exist"));

    let invalid_script = catalog
        .resolve_script_literal("main", "@")
        .expect_err("invalid script literal");
    assert!(invalid_script.to_string().contains("invalid script literal"));

    let invalid_function = catalog
        .resolve_function_literal("main", "#")
        .expect_err("invalid function literal");
    assert!(invalid_function.to_string().contains("invalid function literal"));
}

#[test]
fn scope_resolver_covers_var_and_const_visibility_paths() {
    let catalog = build_catalog();
    let consts = const_table();
    let mut scope = ModuleScope::initial(&catalog, "main");
    scope.add_import("helper".to_string());
    scope.add_alias("h".to_string(), "helper".to_string());
    let resolver = ScopeResolver::new(&catalog, &consts, &scope);

    assert!(matches!(
        resolver.resolve_short_var_ref("value").expect("short local"),
        Some(reference) if reference.qualified_name() == "main.value"
    ));
    assert!(matches!(
        resolver.resolve_qualified_var_ref("helper", "value").expect("qualified import"),
        Some(reference) if reference.qualified_name() == "helper.value"
    ));
    assert!(matches!(
        resolver.resolve_qualified_var_ref("h", "value").expect("qualified alias"),
        Some(reference) if reference.qualified_name() == "helper.value"
    ));
    let hidden_var = resolver.resolve_qualified_var_ref("helper", "priv").err().expect("private var");
    assert!(hidden_var.to_string().contains("does not export var `priv`"));
    let hidden_module = resolver.resolve_qualified_const("nope", "x").ok().expect("missing module");
    assert!(matches!(hidden_module, QualifiedConstLookup::NotModulePath));
    let hidden_import = resolver.resolve_qualified_const("helper", "hidden").ok().expect("hidden const");
    assert!(matches!(hidden_import, QualifiedConstLookup::UnknownConst));
    assert!(matches!(
        resolver.resolve_short_const("answer").expect("short const"),
        Some(ConstValue::Integer(42))
    ));
    assert!(matches!(
        resolver.resolve_qualified_const("helper", "answer").ok().expect("qualified const"),
        QualifiedConstLookup::Value(ConstValue::Integer(42))
    ));
    assert!(matches!(
        resolver.resolve_qualified_const("h", "answer").ok().expect("qualified alias const"),
        QualifiedConstLookup::Value(ConstValue::Integer(42))
    ));
    assert_eq!(resolver.resolve_script_literal("@main").expect("script literal"), "main.main");
    assert_eq!(resolver.resolve_script_literal("@h.entry").expect("script alias literal"), "helper.entry");
    assert_eq!(resolver.resolve_function_literal("#choose").expect("short function literal"), "main.choose");
    assert_eq!(resolver.resolve_function_literal("#h.pick").expect("function alias literal"), "helper.pick");

    assert_eq!(
        resolver.resolve_short_function_ref("pick").expect("short function from import"),
        Some("helper.pick".to_string())
    );
    assert_eq!(
        resolver.resolve_short_function_ref("choose").expect("short function from self"),
        Some("main.choose".to_string())
    );
    assert_eq!(resolver.resolve_short_function_ref("missing").expect("missing function"), None);
}

#[test]
fn const_catalog_reports_missing_consts_as_none() {
    let consts = const_table();
    assert!(consts.resolve_const("main", "missing").is_none());
    assert!(consts.resolve_const("nope", "a").is_none());
    assert!(matches!(consts.resolve_const("helper", "answer"), Some(ConstValue::Integer(42))));
}

#[test]
fn scope_resolver_reports_hidden_modules_and_unknown_functions() {
    let catalog = build_catalog();
    let consts = const_table();
    let scope = ModuleScope::initial(&catalog, "main");
    let resolver = ScopeResolver::new(&catalog, &consts, &scope);

    let hidden = resolver.resolve_qualified_const("helper", "answer").ok().expect("hidden module without import");
    assert!(matches!(hidden, QualifiedConstLookup::HiddenModule));

    let unknown_function = resolver.resolve_function_literal("#helper.nope").expect_err("unknown function");
    assert!(unknown_function.to_string().contains("unknown function"));

    let unknown_script = resolver.resolve_script_literal("@helper.nope").expect_err("unknown script");
    assert!(unknown_script.to_string().contains("unknown script"));
}

#[test]
fn module_scope_normalizes_aliases_for_literals_and_access_checks() {
    let catalog = build_catalog();
    let mut scope = ModuleScope::initial(&catalog, "main");
    scope.add_alias("h".to_string(), "helper".to_string());

    assert!(scope.can_access_module("h"));
    assert_eq!(scope.normalize_script_literal("@h.entry"), "@helper.entry");
    assert_eq!(scope.normalize_function_literal("#h.pick"), "#helper.pick");
    assert_eq!(scope.normalize_script_literal("@loop"), "@loop");
    assert_eq!(scope.normalize_function_literal("#pick"), "#pick");
}

#[test]
fn module_scope_and_alias_helpers_cover_edge_paths() {
    let catalog = build_catalog();
    let scope = ModuleScope::initial(&catalog, "main");

    assert_eq!(scope.normalize_script_literal("@"), "@");
    assert_eq!(scope.normalize_function_literal("#"), "#");
    assert_eq!(scope.normalize_script_literal("plain"), "plain");
    assert_eq!(scope.normalize_function_literal("plain"), "plain");
    assert!(!scope.can_access_module("helper"));

    let alias = form("alias", vec![("name", "main.helper")]);
    assert_eq!(alias_name(&alias).expect("default alias"), "helper");

    let invalid = form("alias", vec![("name", "")]);
    assert!(alias_name(&invalid)
        .expect_err("invalid alias target")
        .to_string()
        .contains("requires valid `name`"));
}

#[test]
fn alias_name_prefers_as_and_rejects_empty_as() {
    let with_as = form("alias", vec![("name", "main.helper"), ("as", "h")]);
    assert_eq!(alias_name(&with_as).expect("explicit alias"), "h");
    let undotted = form("alias", vec![("name", "helper")]);
    assert_eq!(alias_name(&undotted).expect("undotted"), "helper");
    let empty_as = form("alias", vec![("name", "helper"), ("as", "")]);
    assert!(alias_name(&empty_as).expect_err("empty as").to_string().contains("`as` cannot be empty"));
    let trailing_dot = form("alias", vec![("name", "main.")]);
    assert!(alias_name(&trailing_dot).is_err());
    let missing = form("alias", vec![]);
    assert!(alias_name(&missing).is_err());
}

#[test]
fn scope_resolver_covers_current_module_and_hidden_var_paths() {
    let catalog = build_catalog();
    let consts = const_table();
    let scope = ModuleScope::initial(&catalog, "main");
    let resolver = ScopeResolver::new(&catalog, &consts, &scope);

    assert!(matches!(
        resolver.resolve_qualified_var_ref("main", "value").expect("current module qualified"),
        Some(reference) if reference.qualified_name() == "main.value"
    ));
    assert!(resolver.resolve_qualified_var_ref("main", "missing").expect("missing current var").is_none());
    assert!(resolver.resolve_qualified_var_ref("missing", "value").expect("not a module").is_none());
}

#[test]
fn const_catalog_and_scope_cover_cache_alias_and_hidden_module_paths() {
    let catalog = build_catalog();
    let consts = const_table();

    assert!(matches!(consts.resolve_const("helper", "answer"), Some(ConstValue::Integer(42))));
    assert!(matches!(consts.resolve_const("helper", "answer"), Some(ConstValue::Integer(42))));

    let mut scope = ModuleScope::initial(&catalog, "main");
    scope.add_import("helper".to_string());
    scope.add_alias("h".to_string(), "helper".to_string());
    let resolver = ScopeResolver::new(&catalog, &consts, &scope);

    assert!(resolver.resolve_short_const("missing").expect("missing short const").is_none());
    assert!(matches!(
        resolver.resolve_qualified_const("main", "local").ok().expect("current module const"),
        QualifiedConstLookup::Value(ConstValue::Integer(1))
    ));

    let hidden_var = resolver.resolve_qualified_var_ref("kernel", "zero").err().expect("kernel not imported for var ref");
    assert!(hidden_var.to_string().contains("does not export var `zero`"));

    let helper_private = resolver.resolve_qualified_const("helper", "hidden").ok().expect("private helper const");
    assert!(matches!(helper_private, QualifiedConstLookup::UnknownConst));

    let alias_public = resolver.resolve_qualified_const("h", "answer").ok().expect("alias const");
    assert!(matches!(alias_public, QualifiedConstLookup::Value(ConstValue::Integer(42))));
}

#[test]
fn module_scope_initial_imports_kernel_except_for_itself() {
    let catalog = build_catalog();
    let main = ModuleScope::initial(&catalog, "main");
    assert_eq!(main.imports().len(), 1);
    assert_eq!(main.imports()[0].as_str(), "kernel");
    let kernel = ModuleScope::initial(&catalog, "kernel");
    assert!(kernel.imports().is_empty());
    assert_eq!(kernel.current_module(), "kernel");
}

#[test]
fn validate_import_target_accepts_real_modules_and_rejects_invalid_targets() {
    let catalog = build_catalog();
    let mut import_form = form("import", vec![("name", "helper")]);
    import_form.fields.push(FormField { name: "children".to_string(), value: FormValue::Sequence(vec![]) });

    assert!(validate_import_target(&catalog, &import_form, "main", "helper").is_ok());
    let self_error = validate_import_target(&catalog, &import_form, "main", "main").expect_err("self");
    assert!(self_error.to_string().contains("cannot import itself"));
    let missing_error = validate_import_target(&catalog, &import_form, "main", "nope").expect_err("missing");
    assert!(missing_error.to_string().contains("does not exist"));
}
