use sl_compiler::builder::ArtifactBuilder;
use sl_compiler::lower::Instruction;
use sl_compiler::form::{Form, FormField, FormItem, FormMeta, FormValue, SourcePosition};

fn meta() -> FormMeta {
    FormMeta {
        source_name: Some("main.xml".to_string()),
        start: SourcePosition { row: 1, column: 1 },
        end: SourcePosition { row: 1, column: 100 },
        start_byte: 0,
        end_byte: 100,
    }
}

fn node(head: &str, attrs: Vec<(&str, &str)>, items: Vec<FormItem>) -> Form {
    let mut fields: Vec<FormField> = attrs
        .into_iter()
        .map(|(k, v)| FormField { name: k.to_string(), value: FormValue::String(v.to_string()) })
        .collect();
    fields.push(FormField { name: "children".to_string(), value: FormValue::Sequence(items) });
    Form { head: head.to_string(), meta: meta(), fields }
}

fn text(value: &str) -> FormItem {
    FormItem::Text(value.to_string())
}

fn module(name: &str, vars: Vec<(&str, &str)>, scripts: Vec<(&str, Vec<Form>)>) -> Form {
    let mut items: Vec<FormItem> = vars
        .into_iter()
        .map(|(var_name, expr)| FormItem::Form(node("var", vec![("name", var_name)], vec![text(expr)])))
        .collect();
    items.extend(scripts.into_iter().map(|(script_name, body)| {
        FormItem::Form(node("script", vec![("name", script_name)], body.into_iter().map(FormItem::Form).collect()))
    }));
    node("module", vec![("name", name)], items)
}

fn end() -> Form {
    node("end", vec![], vec![])
}

#[test]
fn collect_declarations_rejects_ambiguous_global_short_names() {
    let mut builder = ArtifactBuilder::new();
    let error = builder
        .collect_declarations(&vec![
            module("a", vec![("name", "1")], vec![("entry", vec![end()])]),
            module("b", vec![("name", "2")], vec![("entry", vec![end()])]),
        ])
        .expect_err("should fail");
    assert_eq!(error.to_string(), "global short name `name` is ambiguous between `a.name` and `b.name`");
    assert_eq!(builder.globals.len(), 1);
    assert_eq!(builder.scripts.len(), 1);
}

#[test]
fn collect_declarations_rejects_duplicate_script_refs() {
    let mut builder = ArtifactBuilder::new();
    let error = builder
        .collect_declarations(&vec![module("main", vec![], vec![("entry", vec![end()]), ("entry", vec![end()])])])
        .expect_err("should fail");
    assert_eq!(error.to_string(), "duplicate script declaration `main.entry`");
}

#[test]
fn collect_declarations_numbers_globals_and_scripts_in_order() {
    let mut builder = ArtifactBuilder::new();
    builder
        .collect_declarations(&vec![
            module("main", vec![("hp", " 10 ")], vec![("entry", vec![end()]), ("alt", vec![end()])]),
            module("lib", vec![("gold", "0")], vec![("shop", vec![end()])]),
        ])
        .expect("collects");
    assert_eq!(builder.default_entry_script_id, Some(0));
    let refs: Vec<&str> = builder.scripts.iter().map(|d| d.script_ref.as_str()).collect();
    assert_eq!(refs, vec!["main.entry", "main.alt", "lib.shop"]);
    assert_eq!(builder.script_refs.get("lib.shop"), Some(&2));
    assert_eq!(builder.scripts[2].module_name, "lib");
    assert_eq!(builder.globals[0].global_id, 0);
    assert_eq!(builder.globals[0].qualified_name, "main.hp");
    assert_eq!(builder.globals[0].initializer, "10");
    assert_eq!(builder.globals[1].global_id, 1);
    assert_eq!(builder.globals[1].short_name, "gold");
}

#[test]
fn collect_declarations_rejects_other_module_children() {
    let mut builder = ArtifactBuilder::new();
    let error = builder
        .collect_declarations(&vec![node("module", vec![("name", "main")], vec![FormItem::Form(node("temp", vec![("name", "t")], vec![]))])])
        .expect_err("should fail");
    assert!(error.to_string().contains("unsupported <module> child <temp> in MVP"));
}

#[test]
fn builder_build_boot_script_is_empty_except_for_jump_when_no_globals_exist() {
    let builder = ArtifactBuilder::new();
    assert!(matches!(
        builder.build_boot_script(3).as_slice(),
        [Instruction::JumpScript { script_id }] if *script_id == 3
    ));
}

#[test]
fn builder_boot_script_evaluates_globals_then_jumps() {
    let mut builder = ArtifactBuilder::new();
    builder
        .collect_declarations(&vec![module("main", vec![("answer", "40 + 2")], vec![("entry", vec![end()])])])
        .expect("collects");
    let boot = builder.build_boot_script(0);
    assert_eq!(boot.len(), 2);
    assert!(matches!(&boot[0], Instruction::EvalGlobalInit { global_id, expr } if *global_id == 0 && expr == "40 + 2"));
    assert!(matches!(&boot[1], Instruction::JumpScript { script_id } if *script_id == 0));
}
