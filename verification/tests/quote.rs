use sl_compiler::collections::NameMap;
use sl_compiler::form::{Form, FormField, FormItem, FormMeta, FormValue, SourcePosition};
use sl_compiler::macros::MacroValue;
use sl_compiler::quote::{eval_unquote, gensym, quote_expr, raw_body_text, splice_expr_slots, splice_string_slots, MacroEnv};

fn meta() -> FormMeta {
    FormMeta {
        source_name: Some("main.xml".to_string()),
        start: SourcePosition { row: 1, column: 1 },
        end: SourcePosition { row: 1, column: 20 },
        start_byte: 0,
        end_byte: 20,
    }
}

fn node(head: &str, attrs: Vec<(&str, &str)>, items: Vec<FormItem>) -> Form {
    let mut fields: Vec<FormField> = attrs
        .into_iter()
        .map(|(name, value)| FormField { name: name.to_string(), value: FormValue::String(value.to_string()) })
        .collect();
    fields.push(FormField { name: "children".to_string(), value: FormValue::Sequence(items) });
    Form { head: head.to_string(), meta: meta(), fields }
}

fn text_item(value: &str) -> FormItem {
    FormItem::Text(value.to_string())
}

fn child(form: Form) -> FormItem {
    FormItem::Form(form)
}

fn runtime_with_locals(locals: Vec<(&str, MacroValue)>) -> MacroEnv {
    let mut runtime = MacroEnv::default();
    runtime.current_module = Some("main".to_string());
    runtime.imports = vec!["kernel".to_string()];
    runtime.macro_name = "m".to_string();
    for (name, value) in locals {
        runtime.locals.insert(name.to_string(), value);
    }
    runtime
}

fn form_with_children(items: Vec<FormItem>) -> Form {
    Form {
        head: "unquote".to_string(),
        meta: meta(),
        fields: vec![FormField { name: "children".to_string(), value: FormValue::Sequence(items) }],
    }
}

#[test]
fn splice_helpers_cover_scalars_missing_names_and_type_errors() {
    let runtime = runtime_with_locals(vec![
        ("expr", MacroValue::Expr("left + right".to_string())),
        ("text", MacroValue::String("hello".to_string())),
        ("flag", MacroValue::Bool(true)),
        ("count", MacroValue::Int(3)),
        ("ast", MacroValue::AstItems(Vec::new())),
    ]);

    assert_eq!(
        splice_expr_slots("x = ${expr}; ok=${flag}; n=${count}", &runtime).expect("expr splice"),
        "x = left + right; ok=true; n=3"
    );
    assert_eq!(
        splice_string_slots("msg=${text}; ok=${flag}; n=${count}", &runtime).expect("string splice"),
        "msg=hello; ok=true; n=3"
    );
    assert_eq!(splice_expr_slots("unterminated ${expr", &runtime).expect("unterminated passthrough"), "unterminated ${expr");
    assert_eq!(
        splice_string_slots("unterminated ${text", &runtime).expect("unterminated string passthrough"),
        "unterminated ${text"
    );

    let missing = splice_expr_slots("x=${missing}", &runtime).expect_err("missing local");
    assert!(missing.to_string().contains("unknown macro local `missing`"));

    let wrong_string = splice_string_slots("x=${expr}", &runtime).expect_err("expr in string");
    assert!(wrong_string.to_string().contains("cannot be spliced into string slot"));

    let wrong_expr = splice_expr_slots("x=${ast}", &runtime).expect_err("ast in expr");
    assert!(wrong_expr.to_string().contains("cannot be spliced into expr slot"));
}

#[test]
fn splice_trims_slot_names_and_renders_negative_integers() {
    let runtime = runtime_with_locals(vec![("n", MacroValue::Int(-12)), ("flag", MacroValue::Bool(false))]);
    assert_eq!(splice_string_slots("a${ n }b${flag}", &runtime).expect("splice"), "a-12bfalse");
    assert_eq!(splice_string_slots("no slots", &runtime).expect("plain"), "no slots");
    let missing = splice_string_slots("${nope}", &runtime).expect_err("missing");
    assert_eq!(missing.to_string(), "unknown macro local `nope` referenced in string slot");
}

#[test]
fn quote_expr_rewrites_scalar_unquotes_and_gensymmed_refs() {
    let runtime = runtime_with_locals(vec![
        ("when_expr", MacroValue::Expr("flag".to_string())),
        ("text", MacroValue::String("\"ok\"".to_string())),
        ("flag", MacroValue::Bool(false)),
        ("count", MacroValue::Int(2)),
        ("ast", MacroValue::AstItems(vec![child(node("text", vec![], vec![]))])),
    ]);
    let mut renames = NameMap::new();
    renames.insert("cond".to_string(), "__macro_m_0_cond_1".to_string());

    let expr = quote_expr(
        &vec![
            text_item("cond && "),
            child(node("unquote", vec![], vec![text_item("when_expr")])),
            text_item(" && "),
            child(node("unquote", vec![], vec![text_item("flag")])),
            text_item(" && "),
            child(node("unquote", vec![], vec![text_item("count")])),
        ],
        &runtime,
        &renames,
    )
    .expect("quote expr");
    assert_eq!(expr, "__macro_m_0_cond_1 && flag && false && 2");

    let ast_error = quote_expr(&vec![child(node("unquote", vec![], vec![text_item("ast")]))], &runtime, &NameMap::new())
        .expect_err("ast in expr");
    assert!(ast_error.to_string().contains("requires scalar compile-time value"));

    let form_error =
        quote_expr(&vec![child(node("text", vec![], vec![]))], &runtime, &NameMap::new()).expect_err("nested form");
    assert!(form_error.to_string().contains("only supports text and <unquote>"));
}

#[test]
fn eval_unquote_requires_non_empty_body() {
    let runtime = MacroEnv::default();
    let result = eval_unquote(&form_with_children(vec![]), &runtime);
    assert!(result.is_err());
    assert!(result.unwrap_err().to_string().contains("requires local name body"));
}

#[test]
fn eval_unquote_rejects_unknown_local() {
    let form = form_with_children(vec![FormItem::Text("missing".to_string())]);
    let runtime = MacroEnv::default();
    let result = eval_unquote(&form, &runtime);
    assert!(result.is_err());
    assert!(result.unwrap_err().to_string().contains("unknown macro local `missing`"));
}

#[test]
fn eval_unquote_resolves_known_local() {
    let mut runtime = MacroEnv::default();
    runtime.locals.insert("x".to_string(), MacroValue::String("hello".to_string()));
    let form = form_with_children(vec![FormItem::Text("x".to_string())]);
    let result = eval_unquote(&form, &runtime).unwrap();
    assert_eq!(*result, MacroValue::String("hello".to_string()));
}

#[test]
fn raw_body_text_trims_text_and_rejects_nested_forms() {
    assert_eq!(raw_body_text(&node("unquote", vec![], vec![text_item("  a "), text_item("b ")])), Some("a b".to_string()));
    assert_eq!(raw_body_text(&node("unquote", vec![], vec![])), None);
    assert_eq!(raw_body_text(&node("unquote", vec![], vec![child(node("x", vec![], vec![]))])), None);
    assert_eq!(raw_body_text(&node("unquote", vec![("name", "v")], vec![text_item("   ")])), Some(String::new()));
}

#[test]
fn gensym_numbers_fresh_names_per_invocation() {
    let mut runtime = runtime_with_locals(vec![]);
    runtime.macro_name = "my-macro".to_string();
    runtime.gensym_seed = 4;
    assert_eq!(gensym(&mut runtime, "cond"), "__macro_my_macro_4_cond_1");
    assert_eq!(gensym(&mut runtime, "cond"), "__macro_my_macro_4_cond_2");
    assert_eq!(runtime.gensym_counter, 2);
}

#[test]
fn splice_string_slots_reports_missing_and_wrong_types() {
    let runtime = runtime_with_locals(vec![
        ("expr", MacroValue::Expr("flag".to_string())),
        ("text", MacroValue::String("hello".to_string())),
    ]);

    let missing = splice_string_slots("x=${missing}", &runtime).expect_err("missing");
    assert!(missing.to_string().contains("unknown macro local `missing` referenced in string slot"));

    let wrong = splice_string_slots("x=${expr}", &runtime).expect_err("wrong type");
    assert!(wrong.to_string().contains("cannot be spliced into string slot"));

    assert_eq!(splice_string_slots("x=${text", &runtime).expect("unterminated passthrough"), "x=${text");
}
