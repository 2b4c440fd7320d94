use sl_compiler::form::{Form, FormField, FormMeta, FormValue, SourcePosition};
use sl_compiler::macros::{convert_param_value, parse_i64, MacroParamType, MacroValue};

fn meta() -> FormMeta {
    FormMeta {
        source_name: Some("main.xml".to_string()),
        start: SourcePosition { row: 1, column: 1 },
        end: SourcePosition { row: 1, column: 20 },
        start_byte: 0,
        end_byte: 20,
    }
}

fn make_form(head: &str, attrs: Vec<(&str, &str)>) -> Form {
    Form {
        head: head.to_string(),
        fields: attrs
            .into_iter()
            .map(|(name, value)| FormField { name: name.to_string(), value: FormValue::String(value.to_string()) })
            .collect(),
        meta: meta(),
    }
}

#[test]
fn test_convert_param_value_bool() {
    let invocation = make_form("test", vec![]);
    let value = convert_param_value(&MacroParamType::Bool, Some(&"true".to_string()), "flag", &invocation).unwrap();
    assert_eq!(value, MacroValue::Bool(true));

    let value = convert_param_value(&MacroParamType::Bool, Some(&"false".to_string()), "flag", &invocation).unwrap();
    assert_eq!(value, MacroValue::Bool(false));
}

#[test]
fn test_convert_param_value_int() {
    let invocation = make_form("test", vec![]);
    let value = convert_param_value(&MacroParamType::Int, Some(&"42".to_string()), "num", &invocation).unwrap();
    assert_eq!(value, MacroValue::Int(42));
}

#[test]
fn test_convert_param_value_missing() {
    let invocation = make_form("test", vec![]);
    let result = convert_param_value(&MacroParamType::String, None, "name", &invocation);
    assert!(result.is_err());
}

#[test]
fn convert_param_value_reports_each_error_kind() {
    let invocation = make_form("test", vec![]);
    let missing = convert_param_value(&MacroParamType::Int, None, "num", &invocation).unwrap_err();
    assert!(missing.to_string().contains("missing required parameter `num`"));
    let bad_bool = convert_param_value(&MacroParamType::Bool, Some(&"yes".to_string()), "flag", &invocation).unwrap_err();
    assert!(bad_bool.to_string().contains("parameter `flag` expected bool, got `yes`"));
    let bad_int = convert_param_value(&MacroParamType::Int, Some(&"4x".to_string()), "num", &invocation).unwrap_err();
    assert!(bad_int.to_string().contains("parameter `num` expected int, got `4x`"));
    let ast = convert_param_value(&MacroParamType::Ast, Some(&"x".to_string()), "body", &invocation).unwrap_err();
    assert!(ast.to_string().contains("AST parameter `body` should be handled separately"));
    let kw = convert_param_value(&MacroParamType::Keyword, Some(&"x".to_string()), "rest", &invocation).unwrap_err();
    assert!(kw.to_string().contains("keyword parameter `rest` should be handled separately"));
    let module = convert_param_value(&MacroParamType::Module, Some(&"lib".to_string()), "m", &invocation).unwrap();
    assert_eq!(module, MacroValue::String("lib".to_string()));
    let expr = convert_param_value(&MacroParamType::Expr, Some(&"a + 1".to_string()), "e", &invocation).unwrap();
    assert_eq!(expr, MacroValue::String("a + 1".to_string()));
}

#[test]
fn parse_i64_matches_std_parsing_on_edges() {
    assert_eq!(parse_i64("42"), Some(42));
    assert_eq!(parse_i64("+7"), Some(7));
    assert_eq!(parse_i64("-9223372036854775808"), Some(i64::MIN));
    assert_eq!(parse_i64("9223372036854775807"), Some(i64::MAX));
    assert_eq!(parse_i64("9223372036854775808"), None);
    assert_eq!(parse_i64("-9223372036854775809"), None);
    assert_eq!(parse_i64(""), None);
    assert_eq!(parse_i64("-"), None);
    assert_eq!(parse_i64(" 1"), None);
}
