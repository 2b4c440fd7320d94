use sl_compiler::errors::ScriptLangError;
use sl_compiler::expr::normalize::normalize_expr_escapes;

#[test]
fn normalize_expr_escapes_rewrites_minimal_scriptlang_operator_tokens() {
    let normalized =
        normalize_expr_escapes("hp LTE 10 AND ready AND LT_count == 0").expect("normalize");
    assert_eq!(normalized, "hp <= 10 && ready && LT_count == 0");
}

#[test]
fn normalize_expr_escapes_keeps_tokens_inside_strings() {
    let normalized = normalize_expr_escapes(r#"flag AND note == "LT AND LTE" AND other == 'LT'"#)
        .expect("normalize");
    assert_eq!(
        normalized,
        r#"flag && note == "LT AND LTE" && other == "LT""#
    );
}

#[test]
fn normalize_expr_escapes_rewrites_single_quotes_to_double_quoted_rhai_strings() {
    let normalized = normalize_expr_escapes(r#"'a\'b' AND name == 'R"in'"#).expect("normalize");
    assert_eq!(normalized, "\"a'b\" && name == \"R\\\"in\"");
}

#[test]
fn normalize_expr_escapes_reports_unterminated_strings() {
    assert_eq!(
        normalize_expr_escapes("'abc").unwrap_err(),
        ScriptLangError::UnterminatedSingleQuotedString
    );
    assert_eq!(
        normalize_expr_escapes("'abc\\").unwrap_err(),
        ScriptLangError::UnterminatedSingleQuotedEscape
    );
    assert_eq!(normalize_expr_escapes("\"abc").unwrap(), "\"abc");
}

#[test]
fn normalize_expr_escapes_is_identity_without_tokens() {
    assert_eq!(normalize_expr_escapes("a + b * 2").unwrap(), "a + b * 2");
}

#[test]
fn normalize_expr_escapes_twice_equals_once() {
    for source in [
        "a LT b AND c LTE d",
        "'it\\'s' + \"x LT y\" + 'q\"uote' + 'back\\\\slash'",
        "x AND'y'LT\"z",
        "foo_LT LTE1 'a\\nb'",
    ] {
        let once = normalize_expr_escapes(source).expect("once");
        let twice = normalize_expr_escapes(&once).expect("twice");
        assert_eq!(twice, once);
    }
}
