use sl_compiler::names::{
    lower_resolved_vars_to_runtime_names, qualified_member_name, resolved_var_placeholder,
    runtime_global_name,
};

#[test]
fn helpers_encode_and_lower_resolved_var_placeholders() {
    let local = resolved_var_placeholder("main.answer");
    let imported = resolved_var_placeholder("m1.shared");
    let source = format!(r#"{local} += "{imported}" + {imported};"#);

    assert_eq!(
        lower_resolved_vars_to_runtime_names(&source),
        format!(
            r#"{} += "{imported}" + {};"#,
            runtime_global_name("main.answer"),
            runtime_global_name("m1.shared"),
        )
    );
}

#[test]
fn runtime_global_name_replaces_non_identifier_characters() {
    assert_eq!(runtime_global_name("main.answer"), "__sl_globalmain_answer");
    assert_eq!(runtime_global_name("a-b.c_1"), "__sl_globala_b_c_1");
}

#[test]
fn placeholder_lowers_to_runtime_global_name() {
    let q = "helper.value";
    assert_eq!(
        lower_resolved_vars_to_runtime_names(&resolved_var_placeholder(q)),
        runtime_global_name(q)
    );
    assert_eq!(resolved_var_placeholder(q), "__sl_var__(helper.value)");
}

#[test]
fn lowering_leaves_unclosed_placeholder_and_strings_alone() {
    assert_eq!(
        lower_resolved_vars_to_runtime_names("__sl_var__(main.x"),
        "__sl_var__(main.x"
    );
    assert_eq!(
        lower_resolved_vars_to_runtime_names("'__sl_var__(a.b)'"),
        "'__sl_var__(a.b)'"
    );
}

#[test]
fn qualified_member_name_joins_with_dot() {
    assert_eq!(qualified_member_name("main", "loop"), "main.loop");
}

#[test]
fn two_byte_characters_outside_quotes_keep_their_first_byte() {
    assert_eq!(lower_resolved_vars_to_runtime_names("caf\u{e9} + x"), "caf\u{c3} + x");
    assert_eq!(lower_resolved_vars_to_runtime_names("\"caf\u{e9}\""), "\"caf\u{e9}\"");
}

#[test]
fn ascii_text_without_placeholders_lowers_unchanged() {
    let source = "a + 'x(y)' + f(b, \"__sl_var__(q)\")";
    assert_eq!(lower_resolved_vars_to_runtime_names(source), source);
}
