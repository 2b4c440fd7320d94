use sl_compiler::dispatch::{
    dispatch_rule, envless_scope, has_builtin_rule, is_macro_in_requires, ExpandDispatch, ExpandRuleScope, MacroScope,
};
use sl_compiler::env::{ExpandEnv, MacroDefinition};
use sl_compiler::form::{Form, FormField, FormItem, FormMeta, FormValue, SourcePosition};

fn meta() -> FormMeta {
    FormMeta {
        source_name: Some("main.xml".to_string()),
        start: SourcePosition { row: 1, column: 1 },
        end: SourcePosition { row: 1, column: 20 },
        start_byte: 0,
        end_byte: 20,
    }
}

fn node(head: &str, attrs: Vec<(&str, &str)>, items: Vec<FormItem>) -> Form {
    let mut fields: Vec<FormField> = attrs
        .into_iter()
        .map(|(k, v)| FormField { name: k.to_string(), value: FormValue::String(v.to_string()) })
        .collect();
    fields.push(FormField { name: "children".to_string(), value: FormValue::Sequence(items) });
    Form { head: head.to_string(), meta: meta(), fields }
}

fn text(value: &str) -> FormItem {
    FormItem::Text(value.to_string())
}

fn child(form: Form) -> FormItem {
    FormItem::Form(form)
}

fn macro_def(module_name: &str, name: &str, body: Vec<FormItem>) -> MacroDefinition {
    MacroDefinition {
        module_name: module_name.to_string(),
        name: name.to_string(),
        params: None,
        legacy_protocol: None,
        body,
    }
}

#[test]
fn expand_rule_scope_variants_remain_distinct() {
    assert_ne!(ExpandRuleScope::ModuleChild, ExpandRuleScope::Statement);
}

#[test]
fn envless_scope_maps_each_rule_scope() {
    assert_eq!(envless_scope(ExpandRuleScope::ModuleChild), MacroScope::ModuleChild);
    assert_eq!(envless_scope(ExpandRuleScope::Statement), MacroScope::Statement);
}

#[test]
fn dispatch_covers_builtin_and_macro_hook_paths() {
    let mut env = ExpandEnv::default();
    env.begin_module(Some("main".to_string()), Some("main.xml".to_string())).expect("module");
    env.program
        .register_macro(macro_def("main", "hello", vec![child(node("quote", vec![], vec![text("hi")]))]))
        .expect("register macro");

    assert_eq!(dispatch_rule(&node("script", vec![], vec![]), &env, ExpandRuleScope::ModuleChild), ExpandDispatch::Builtin);
    assert_eq!(dispatch_rule(&node("hello", vec![], vec![]), &env, ExpandRuleScope::Statement), ExpandDispatch::MacroHook);
    assert_eq!(dispatch_rule(&node("unknown", vec![], vec![]), &env, ExpandRuleScope::Statement), ExpandDispatch::Builtin);
}

#[test]
fn builtin_rules_depend_on_position() {
    for head in ["script", "var", "temp"] {
        assert!(has_builtin_rule(&node(head, vec![], vec![]), ExpandRuleScope::ModuleChild));
    }
    for head in ["temp", "while", "choice", "option"] {
        assert!(has_builtin_rule(&node(head, vec![], vec![]), ExpandRuleScope::Statement));
    }
    assert!(!has_builtin_rule(&node("while", vec![], vec![]), ExpandRuleScope::ModuleChild));
    assert!(!has_builtin_rule(&node("script", vec![], vec![]), ExpandRuleScope::Statement));
}

#[test]
fn macros_out_of_scope_still_dispatch_to_the_macro_hook() {
    let mut env = ExpandEnv::default();
    env.begin_module(Some("main".to_string()), None).expect("module");
    env.program.register_macro(macro_def("helper", "mk", vec![])).expect("register");
    let invocation = node("mk", vec![], vec![]);
    assert!(env.resolve_macro("mk").is_none());
    assert!(is_macro_in_requires(&invocation, &env));
    assert_eq!(dispatch_rule(&invocation, &env, ExpandRuleScope::ModuleChild), ExpandDispatch::MacroHook);
    assert!(!is_macro_in_requires(&node("other", vec![], vec![]), &env));
}
