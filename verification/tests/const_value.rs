use sl_compiler::collections::NameMap;
use sl_compiler::const_value::ConstValue;

#[test]
fn const_value_to_rhai_literal_covers_all_shapes() {
    let mut object = NameMap::new();
    object.insert("enabled".to_string(), ConstValue::Bool(true));
    object.insert(
        "items".to_string(),
        ConstValue::Array(vec![
            ConstValue::Integer(1),
            ConstValue::String("ok".to_string()),
            ConstValue::Script("main.loop".to_string()),
            ConstValue::Function("main.pick".to_string()),
        ]),
    );
    let value = ConstValue::Object(object);

    let rhai = value.to_rhai_literal();
    assert!(rhai.contains("enabled: true"));
    assert!(rhai.contains("[1, \"ok\", \"main.loop\", \"main.pick\"]"));
}

#[test]
fn const_value_to_rhai_literal_exact_shapes() {
    assert_eq!(ConstValue::Integer(-42).to_rhai_literal(), "-42");
    assert_eq!(ConstValue::Bool(false).to_rhai_literal(), "false");
    assert_eq!(ConstValue::String("a\"b".to_string()).to_rhai_literal(), "\"a\\\"b\"");
    assert_eq!(ConstValue::Array(Vec::new()).to_rhai_literal(), "[]");
    let mut object = NameMap::new();
    object.insert("b".to_string(), ConstValue::Integer(2));
    object.insert("a".to_string(), ConstValue::Integer(1));
    assert_eq!(ConstValue::Object(object).to_rhai_literal(), "#{a: 1, b: 2}");
    assert_eq!(ConstValue::Integer(i64::MIN).to_rhai_literal(), "-9223372036854775808");
}
