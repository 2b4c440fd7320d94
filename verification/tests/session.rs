use sl_compiler::form::{Form, FormField, FormItem, FormMeta, FormValue, SourcePosition};
use sl_compiler::collections::NameMap;
use sl_compiler::session::{
    build_entry_session_module, build_form, merged_sources, module_name, reject_reserved_session_module,
    session_script_ref, synthetic_meta,
};

fn module(fields: Vec<FormField>) -> Form {
    Form {
        head: "module".to_string(),
        meta: FormMeta {
            source_name: Some("main.xml".to_string()),
            start: SourcePosition { row: 1, column: 1 },
            end: SourcePosition { row: 1, column: 2 },
            start_byte: 0,
            end_byte: 2,
        },
        fields,
    }
}

fn name_field(value: &str) -> FormField {
    FormField { name: "name".to_string(), value: FormValue::String(value.to_string()) }
}

fn attr_of<'a>(form: &'a Form, name: &str) -> Option<&'a str> {
    form.fields.iter().find(|f| f.name == name).and_then(|f| match &f.value {
        FormValue::String(v) => Some(v.as_str()),
        FormValue::Sequence(_) => None,
    })
}

fn only_child(form: &Form) -> &Form {
    match form.fields.iter().find(|f| f.name == "children").map(|f| &f.value) {
        Some(FormValue::Sequence(items)) => match items.as_slice() {
            [FormItem::Form(f)] => f,
            _ => panic!("expected one child form"),
        },
        _ => panic!("expected children"),
    }
}

#[test]
fn entry_session_module_jumps_to_the_entry_script() {
    let module = build_entry_session_module("main.start");
    assert_eq!(module.head, "module");
    assert_eq!(attr_of(&module, "name"), Some("__sl_api__"));
    assert_eq!(module.meta.source_name.as_deref(), Some("<sl-api>"));
    let script = only_child(&module);
    assert_eq!(script.head, "script");
    assert_eq!(attr_of(script, "name"), Some("__entry__"));
    let goto = only_child(script);
    assert_eq!(goto.head, "goto");
    assert_eq!(attr_of(goto, "script"), Some("'main.start'"));
    assert_eq!(session_script_ref(), "__sl_api__.__entry__");
}

#[test]
fn build_form_puts_children_after_attributes() {
    let form = build_form("x", vec![("a", "1".to_string()), ("b", "2".to_string())], vec![]);
    let names: Vec<&str> = form.fields.iter().map(|f| f.name.as_str()).collect();
    assert_eq!(names, vec!["a", "b", "children"]);
    assert_eq!(form.meta, synthetic_meta());
    assert_eq!(synthetic_meta().start, SourcePosition { row: 1, column: 1 });
    assert_eq!(synthetic_meta().end_byte, 0);
}

#[test]
fn reserved_session_module_name_is_refused() {
    let user = vec![module(vec![name_field("main")]), module(vec![name_field("__sl_api__")])];
    let err = reject_reserved_session_module(&user).expect_err("reserved");
    assert_eq!(err.to_string(), "module name `__sl_api__` is reserved for api runtime entry");
    assert!(reject_reserved_session_module(&user[..1]).is_ok());
    assert!(reject_reserved_session_module(&[module(vec![])]).is_ok());
}

#[test]
fn module_name_reads_the_name_field() {
    assert_eq!(module_name(&module(vec![name_field("main")])).expect("name"), "main");
    let missing = module_name(&module(vec![])).expect_err("missing");
    assert_eq!(missing.to_string(), "expected a <module> form with `name`");
    let nested =
        module_name(&module(vec![FormField { name: "name".to_string(), value: FormValue::Sequence(vec![]) }]))
            .expect_err("sequence");
    assert_eq!(nested.to_string(), "<module>.name must be a string");
}

#[test]
fn session_module_itself_takes_the_reserved_name() {
    let session = build_entry_session_module("main.main");
    assert_eq!(module_name(&session).expect("name"), "__sl_api__");
    assert!(reject_reserved_session_module(&[session]).is_err());
}

#[test]
fn merged_sources_let_user_sources_replace_bundled_ones() {
    let bundled = vec![
        ("lib/kernel.xml".to_string(), "<module name=\"kernel\"/>".to_string()),
        ("lib/extra.xml".to_string(), "old".to_string()),
    ];
    let mut user = NameMap::new();
    user.insert("main.xml".to_string(), "<module name=\"main\"/>".to_string());
    user.insert("lib/extra.xml".to_string(), "new".to_string());
    let merged = merged_sources(&user, &bundled);
    assert_eq!(merged.len(), 3);
    assert_eq!(merged.get("lib/kernel.xml").map(String::as_str), Some("<module name=\"kernel\"/>"));
    assert_eq!(merged.get("lib/extra.xml").map(String::as_str), Some("new"));
    assert_eq!(merged.get("main.xml").map(String::as_str), Some("<module name=\"main\"/>"));
}
