use sl_compiler::classify::{classify_form, ClassifiedBody, SlotKind};
use sl_compiler::form::{
    attr, body_expr, body_template, child_forms, location, required_attr, trimmed_text_items, Form,
    FormField, FormItem, FormMeta, FormValue, SourcePosition,
};

fn meta() -> FormMeta {
    FormMeta {
        source_name: Some("main.xml".to_string()),
        start: SourcePosition { row: 1, column: 1 },
        end: SourcePosition { row: 1, column: 20 },
        start_byte: 0,
        end_byte: 20,
    }
}

fn form(head: &str, fields: Vec<FormField>) -> Form {
    Form { head: head.to_string(), meta: meta(), fields }
}

#[test]
fn raw_form_helpers_read_attributes_and_supported_bodies() {
    let module = form(
        "module",
        vec![
            FormField { name: "name".to_string(), value: FormValue::String("main".to_string()) },
            FormField {
                name: "children".to_string(),
                value: FormValue::Sequence(vec![FormItem::Form(form(
                    "script",
                    vec![FormField {
                        name: "children".to_string(),
                        value: FormValue::Sequence(Vec::new()),
                    }],
                ))]),
            },
        ],
    );
    let var = form(
        "var",
        vec![
            FormField {
                name: "children".to_string(),
                value: FormValue::Sequence(vec![FormItem::Text("@loop".to_string())]),
            },
            FormField { name: "type".to_string(), value: FormValue::String("script".to_string()) },
        ],
    );
    let text = form(
        "text",
        vec![FormField {
            name: "children".to_string(),
            value: FormValue::Sequence(vec![FormItem::Text("${next}".to_string())]),
        }],
    );

    assert_eq!(attr(&module, "name"), Some("main"));
    assert_eq!(required_attr(&module, "name").expect("required"), "main");
    assert_eq!(child_forms(&module).expect("children")[0].head, "script");
    assert_eq!(body_expr(&var).expect("expr"), "@loop");
    assert_eq!(body_template(&text).expect("template"), "${next}");
}

#[test]
fn raw_form_helpers_reject_invalid_shapes() {
    let script = form(
        "script",
        vec![FormField {
            name: "children".to_string(),
            value: FormValue::Sequence(vec![FormItem::Text("bad".to_string())]),
        }],
    );
    let temp = form(
        "temp",
        vec![FormField {
            name: "children".to_string(),
            value: FormValue::Sequence(vec![FormItem::Form(form(
                "inner",
                vec![FormField {
                    name: "children".to_string(),
                    value: FormValue::Sequence(Vec::new()),
                }],
            ))]),
        }],
    );

    assert!(required_attr(&script, "name")
        .expect_err("missing attr")
        .to_string()
        .contains("<script> requires `name`"));
    assert!(child_forms(&script)
        .expect_err("unexpected text")
        .to_string()
        .contains("does not support text items"));
    assert!(trimmed_text_items(&temp)
        .expect_err("nested form")
        .to_string()
        .contains("nested <inner> is not supported"));
}

#[test]
fn form_errors_carry_location_and_exact_messages() {
    let bare = form("code", vec![]);
    assert_eq!(location(&bare.meta), "main.xml:1:1");
    assert_eq!(
        body_expr(&bare).unwrap_err().to_string(),
        "<code> is missing `children` field at main.xml:1:1"
    );
    let mut no_source = form("text", vec![FormField {
        name: "children".to_string(),
        value: FormValue::String("x".to_string()),
    }]);
    no_source.meta.source_name = None;
    no_source.meta.start = SourcePosition { row: 12, column: 7 };
    assert_eq!(
        body_template(&no_source).unwrap_err().to_string(),
        "<text> has invalid `children` field shape at 12:7"
    );
    assert_eq!(
        body_expr(&no_source).unwrap_err().to_string(),
        "<text> body is not classified as an expression at 12:7"
    );
    assert_eq!(
        child_forms(&no_source).unwrap_err().to_string(),
        "<text> body does not support nested statements at 12:7"
    );
}

#[test]
fn classify_form_sorts_attributes_and_bodies() {
    let goto = form(
        "goto",
        vec![
            FormField { name: "script".to_string(), value: FormValue::String("@next".to_string()) },
            FormField { name: "children".to_string(), value: FormValue::Sequence(vec![FormItem::Text("  ".to_string())]) },
        ],
    );
    let var = form(
        "var",
        vec![
            FormField { name: "name".to_string(), value: FormValue::String("x".to_string()) },
            FormField { name: "children".to_string(), value: FormValue::Sequence(vec![FormItem::Text("  1 + 2 ".to_string())]) },
        ],
    );
    let c = classify_form(&goto).expect("classify");
    assert_eq!(c.attrs.len(), 1);
    assert_eq!(c.attrs[0].kind, SlotKind::Expr);
    assert_eq!(c.body, ClassifiedBody::Statements(Vec::new()));
    let v = classify_form(&var).expect("classify");
    assert_eq!(v.attrs[0].kind, SlotKind::Ident);
    assert_eq!(v.body, ClassifiedBody::Expr("1 + 2".to_string()));
    let missing = form("end", vec![]);
    assert_eq!(
        classify_form(&missing).unwrap_err().to_string(),
        "<end> is missing `children` field at main.xml:1:1"
    );
}
