use sl_compiler::collections::{NameMap, NameSet};
use sl_compiler::const_eval::{parse_const_value, ConstParser};
use sl_compiler::const_value::ConstValue;
use sl_compiler::errors::DeclaredType;
use sl_compiler::expr::rewrite::{rewrite_expr_with_consts, rewrite_template_with_consts};
use sl_compiler::expr::template::{TextSegment, TextTemplate};
use sl_compiler::resolve::{ConstCatalog, ModuleCatalog, ScopeResolver};
use sl_compiler::scope::{ModuleExports, ModuleMembers, ModulePath, ModuleScope};

fn members(names: &[(&str, bool)]) -> ModuleMembers {
    let mut m = ModuleMembers::new();
    for (name, exported) in names {
        m.insert(name.to_string(), *exported);
    }
    m
}

fn exports_with(consts: &[(&str, bool)], functions: &[(&str, bool)], scripts: &[(&str, bool)]) -> ModuleExports {
    ModuleExports {
        consts: members(consts),
        functions: members(functions),
        scripts: members(scripts),
        vars: members(&[]),
    }
}

/// `main` imports `base` (which exports `answer` = 42) and reaches
/// `lib.math` (exporting `zero` = 0 and the function `pick`) through an
/// alias; `hidden` exists but is not visible from `main`.
struct Fixture {
    catalog: ModuleCatalog,
    consts: ConstCatalog,
    scope: ModuleScope,
}

fn fixture() -> Fixture {
    let mut modules = NameMap::new();
    modules.insert("main".to_string(), exports_with(&[], &[("pick", true)], &[("loop", true)]));
    modules.insert("base".to_string(), exports_with(&[("answer", true)], &[], &[]));
    modules.insert(
        "lib.math".to_string(),
        exports_with(&[("zero", true)], &[("pick", true)], &[("zero", true)]),
    );
    modules.insert("hidden".to_string(), exports_with(&[("zero", true)], &[], &[]));
    let catalog = ModuleCatalog { modules, child_aliases: NameMap::new() };

    let mut base = NameMap::new();
    base.insert("answer".to_string(), ConstValue::Integer(42));
    let mut math = NameMap::new();
    math.insert("zero".to_string(), ConstValue::Integer(0));
    let mut hidden = NameMap::new();
    hidden.insert("zero".to_string(), ConstValue::Integer(9));
    let mut values = NameMap::new();
    values.insert("base".to_string(), base);
    values.insert("lib.math".to_string(), math);
    values.insert("hidden".to_string(), hidden);
    let consts = ConstCatalog { values };

    let mut aliases = NameMap::new();
    aliases.insert("m".to_string(), ModulePath("lib.math".to_string()));
    let scope = ModuleScope::new("main".to_string(), vec![ModulePath("base".to_string())], aliases);
    Fixture { catalog, consts, scope }
}

fn env(entries: &[(&str, ConstValue)]) -> NameMap<ConstValue> {
    let mut m = NameMap::new();
    for (k, v) in entries {
        m.insert(k.to_string(), clone_value(v));
    }
    m
}

fn clone_value(v: &ConstValue) -> ConstValue {
    match v {
        ConstValue::Bool(b) => ConstValue::Bool(*b),
        ConstValue::Integer(i) => ConstValue::Integer(*i),
        ConstValue::String(s) => ConstValue::String(s.clone()),
        ConstValue::Script(s) => ConstValue::Script(s.clone()),
        ConstValue::Function(s) => ConstValue::Function(s.clone()),
        _ => panic!("only scalar fixtures"),
    }
}

fn names(list: &[&str]) -> NameSet {
    let mut s = NameSet::new();
    for n in list {
        s.insert(n.to_string());
    }
    s
}

fn object(entries: Vec<(&str, ConstValue)>) -> ConstValue {
    let mut m = NameMap::new();
    for (k, v) in entries {
        m.insert(k.to_string(), v);
    }
    ConstValue::Object(m)
}

fn parse(source: &str, local: &NameMap<ConstValue>, blocked: &NameSet, expected: Option<DeclaredType>) -> Result<ConstValue, String> {
    let f = fixture();
    let resolver = ScopeResolver::new(&f.catalog, &f.consts, &f.scope);
    parse_const_value(source, local, &resolver, blocked, expected).map_err(|e| e.to_string())
}

fn parse_plain(source: &str, expected: Option<DeclaredType>) -> Result<ConstValue, String> {
    parse(source, &NameMap::new(), &NameSet::new(), expected)
}

#[test]
fn parse_const_value_supports_literals_containers_and_const_refs() {
    let local_env = env(&[("local", ConstValue::Integer(7))]);
    assert_eq!(
        parse(r#"[local, answer, true, "ok"]"#, &local_env, &NameSet::new(), None).expect("parse"),
        ConstValue::Array(vec![
            ConstValue::Integer(7),
            ConstValue::Integer(42),
            ConstValue::Bool(true),
            ConstValue::String("ok".to_string()),
        ])
    );
    assert_eq!(
        parse("#{foo: lib.math.zero}", &local_env, &NameSet::new(), None).expect("parse"),
        object(vec![("foo", ConstValue::Integer(0))])
    );
    assert_eq!(
        parse("#lib.math.pick", &local_env, &NameSet::new(), Some(DeclaredType::Function)).expect("function literal"),
        ConstValue::Function("lib.math.pick".to_string())
    );
    assert_eq!(
        parse("#pick", &local_env, &NameSet::new(), Some(DeclaredType::Function)).expect("short function literal"),
        ConstValue::Function("main.pick".to_string())
    );
}

#[test]
fn parse_const_value_rejects_forward_refs_and_unsupported_shapes() {
    let blocked = names(&["later"]);
    assert!(parse("later", &NameMap::new(), &blocked, None)
        .expect_err("forward ref")
        .contains("cannot be referenced before it is defined"));
    assert!(parse_plain("call()", None).expect_err("call").contains("unsupported const reference `call`"));
    assert!(parse_plain("hidden.zero", None).expect_err("hidden").contains("module `hidden` is not imported"));
    assert!(parse_plain("1.5", None).expect_err("float").contains("float const literals are not supported"));
    assert!(parse_plain("#missing", Some(DeclaredType::Function))
        .expect_err("missing function")
        .contains("unknown function"));
    assert!(parse_plain("#pick", Some(DeclaredType::Script)).expect_err("wrong type").contains("script literal"));
}

#[test]
fn parse_const_value_supports_script_literals_for_script_type() {
    let value = parse_plain("@loop", Some(DeclaredType::Script)).expect("script literal");
    assert_eq!(value, ConstValue::Script("main.loop".to_string()));
}

#[test]
fn parse_const_value_covers_parse_and_type_error_paths() {
    assert!(parse_plain("", None).expect_err("empty expression").contains("empty const expression"));
    assert!(parse_plain("42 trailing", None).expect_err("trailing tokens").contains("unexpected trailing tokens"));
    assert!(parse_plain("(", None).expect_err("unsupported start").contains("unsupported const expression starting"));
    assert!(parse_plain("#{1: 2}", None).expect_err("bad object key").contains("unsupported object key"));
    assert!(parse_plain("-", None).expect_err("bad number").contains("invalid const number literal"));
    assert!(parse_plain("\"unterminated", None)
        .expect_err("unterminated string")
        .contains("unterminated string literal"));
    assert!(parse_plain("\"a\\", None).expect_err("unterminated escape").contains("unterminated escape sequence"));
    assert!(parse_plain("main.missing", None)
        .expect_err("current module missing const")
        .contains("does not export const `missing`"));
    assert!(parse_plain("lib.math.nope", None)
        .expect_err("unknown qualified const")
        .contains("does not export const `nope`"));
    assert!(parse_plain("missing.path", None)
        .expect_err("not module path")
        .contains("unsupported const reference `missing.path`"));
    assert!(parse_plain("true", Some(DeclaredType::Array)).expect_err("array mismatch").contains("const declared as `array`"));
    assert!(parse_plain("\"ok\"", Some(DeclaredType::Bool)).expect_err("bool mismatch").contains("const declared as `bool`"));
    assert!(parse_plain("1", Some(DeclaredType::Object)).expect_err("object mismatch").contains("const declared as `object`"));
    assert!(parse_plain("1", Some(DeclaredType::String)).expect_err("string mismatch").contains("const declared as `string`"));

    let escaped = parse_plain("\"line\\nquote\\\"tab\\t\"", Some(DeclaredType::String)).expect("escaped string");
    assert_eq!(escaped, ConstValue::String("line\nquote\"tab\t".to_string()));
}

#[test]
fn parse_const_value_covers_empty_literals_and_parser_punctuation_errors() {
    assert_eq!(parse_plain("[]", Some(DeclaredType::Array)).expect("empty array"), ConstValue::Array(vec![]));
    assert_eq!(
        parse_plain("#{\"quoted\": 1}", Some(DeclaredType::Object)).expect("quoted key object"),
        object(vec![("quoted", ConstValue::Integer(1))])
    );
    assert_eq!(
        parse_plain("@lib.math.zero", Some(DeclaredType::Script)).expect("qualified script literal"),
        ConstValue::Script("lib.math.zero".to_string())
    );
    assert!(parse_plain("[1 2]", None).expect_err("missing array comma").contains("expected `,`"));
    assert!(parse_plain("#{foo 1}", None).expect_err("missing object colon").contains("expected `:`"));
    assert!(parse_plain("@foo.", None).expect_err("missing ident after script dot").contains("unexpected end of input"));
    assert!(parse_plain("#foo.", None).expect_err("missing ident after function dot").contains("unexpected end of input"));
    assert!(
        parse_plain("\"x\\q\"", Some(DeclaredType::String)).expect("unknown escape passthrough")
            == ConstValue::String("xq".to_string())
    );
    assert!(parse_plain("9999999999999999999999999999999999999", None)
        .expect_err("integer overflow")
        .contains("invalid integer const literal"));
}

#[test]
fn rewrite_helpers_replace_only_visible_const_refs() {
    let f = fixture();
    let resolver = ScopeResolver::new(&f.catalog, &f.consts, &f.scope);
    let local_env = env(&[("name", ConstValue::String("neo".to_string()))]);
    let rewritten = rewrite_expr_with_consts(
        r##"answer + answer_more + obj.answer + lib.math.zero + "#{answer}" + #{answer: answer} + name + hidden.zero"##,
        &local_env,
        &resolver,
        &NameSet::new(),
        &NameSet::new(),
    )
    .expect("rewrite");
    assert_eq!(
        rewritten,
        r##"42 + answer_more + obj.answer + 0 + "#{answer}" + #{answer: 42} + "neo" + hidden.zero"##
    );

    let template = rewrite_template_with_consts(
        TextTemplate {
            segments: vec![
                TextSegment::Literal("x=".to_string()),
                TextSegment::Expr("lib.math.zero".to_string()),
            ],
        },
        &NameMap::new(),
        &resolver,
        &NameSet::new(),
        &NameSet::new(),
    )
    .expect("template");
    assert!(matches!(&template.segments[1], TextSegment::Expr(expr) if expr == "0"));

    let untouched =
        rewrite_expr_with_consts("obj.answer", &NameMap::new(), &resolver, &NameSet::new(), &NameSet::new())
            .expect("property access");
    assert_eq!(untouched, "obj.answer");
}

#[test]
fn const_parser_direct_helpers_cover_remaining_shapes() {
    let f = fixture();
    let resolver = ScopeResolver::new(&f.catalog, &f.consts, &f.scope);
    let empty = NameMap::new();
    let blocked = NameSet::new();
    let parser = |source: &str| ConstParser {
        source: source.chars().collect(),
        local_env: &empty,
        resolver: &resolver,
        blocked_names: &blocked,
        expected_type: None,
    };

    assert_eq!(parser("#{}").parse_object(0).expect("empty object").0, object(vec![]));
    assert_eq!(parser("#{a: 1}").parse_object(0).expect("object").0, object(vec![("a", ConstValue::Integer(1))]));
    assert_eq!(
        parser("#pick").parse_function_literal(0).expect("function").0,
        ConstValue::Function("main.pick".to_string())
    );
    assert!(parser("-9223372036854775809")
        .parse_number(0)
        .expect_err("overflow")
        .to_string()
        .contains("invalid integer const literal"));
    assert!(parser("main.answer")
        .parse_reference_value(0)
        .expect_err("missing")
        .to_string()
        .contains("does not export const `answer`"));

    let strings = parser("\"x\" \"a\\r\\t\\\\\\'\\\"\"");
    let (first, end) = strings.parse_string(0).expect("string");
    assert_eq!(first, "x");
    let next = strings.skip_ws(end);
    assert_eq!(strings.parse_string(next).expect("escaped").0, "a\r\t\\'\"");

    let empty_source = parser("");
    assert!(empty_source
        .parse_string(0)
        .expect_err("unexpected end")
        .to_string()
        .contains("unexpected end of string literal"));
    assert!(empty_source
        .parse_object_key(0)
        .expect_err("object eof")
        .to_string()
        .contains("unexpected end of object literal"));
    assert!(empty_source
        .parse_ident(0)
        .expect_err("ident eof")
        .to_string()
        .contains("unexpected end of input"));
}

#[test]
fn printed_constants_parse_back_to_the_same_value() {
    for value in [
        ConstValue::String("plain text".to_string()),
        ConstValue::String("quote \" and back\\slash ' ~".to_string()),
        ConstValue::String(String::new()),
        ConstValue::Integer(-42),
        ConstValue::Bool(true),
        ConstValue::Array(vec![ConstValue::Integer(1), ConstValue::String("x".to_string())]),
        object(vec![("a", ConstValue::Bool(false)), ("b_1", ConstValue::String("y".to_string()))]),
    ] {
        let literal = value.to_rhai_literal();
        assert_eq!(parse_plain(&literal, None).expect("parses back"), value);
    }
}

#[test]
fn nested_literals_parse_back_to_the_same_value() {
    let inner = object(vec![("k", ConstValue::Array(vec![ConstValue::Integer(i64::MIN)]))]);
    let value = ConstValue::Array(vec![
        inner,
        ConstValue::Array(vec![]),
        object(vec![]),
        ConstValue::Integer(i64::MAX),
    ]);
    let literal = value.to_rhai_literal();
    assert_eq!(literal, "[#{k: [-9223372036854775808]}, [], #{}, 9223372036854775807]");
    assert_eq!(parse_plain(&literal, None).expect("parses back"), value);
}

#[test]
fn rewritten_const_reference_evaluates_to_the_const_value() {
    let f = fixture();
    let resolver = ScopeResolver::new(&f.catalog, &f.consts, &f.scope);
    let make = || {
        object(vec![
            ("a", ConstValue::Array(vec![ConstValue::Integer(1), ConstValue::String("x".to_string())])),
            ("b", ConstValue::Bool(true)),
        ])
    };
    let mut local_env = NameMap::new();
    local_env.insert("cfg".to_string(), make());
    let rewritten =
        rewrite_expr_with_consts("cfg", &local_env, &resolver, &NameSet::new(), &NameSet::new()).expect("rewrite");
    assert_eq!(rewritten, r#"#{a: [1, "x"], b: true}"#);
    assert_eq!(parse_plain(&rewritten, None).expect("parses back"), make());
}
