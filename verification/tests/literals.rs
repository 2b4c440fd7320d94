use sl_compiler::collections::{NameMap, NameSet};
use sl_compiler::const_value::ConstValue;
use sl_compiler::expr::rewrite::{rewrite_expr_with_consts, rewrite_special_literals, rewrite_template_special_literals};
use sl_compiler::expr::scan::scan_expr_source;
use sl_compiler::expr::template::{parse_text_template, TextSegment, TextTemplate};
use sl_compiler::expr::types::{ExprKind, SpecialTokenKind};
use sl_compiler::resolve::{ConstCatalog, ModuleCatalog, ScopeResolver};
use sl_compiler::scope::{ModuleExports, ModuleMembers, ModulePath, ModuleScope};

fn members(names: &[(&str, bool)]) -> ModuleMembers {
    let mut m = ModuleMembers::new();
    for (name, exported) in names {
        m.insert(name.to_string(), *exported);
    }
    m
}

fn exports_with(consts: &[(&str, bool)], functions: &[(&str, bool)], scripts: &[(&str, bool)]) -> ModuleExports {
    ModuleExports {
        consts: members(consts),
        functions: members(functions),
        scripts: members(scripts),
        vars: members(&[]),
    }
}

/// `main` (function `pick`, script `loop`) imports `base`, which exports
/// `answer` = 42, and sees `helper` (const `zero` = 0, function `pick`)
/// through the alias `h`.
fn setup() -> (ModuleCatalog, ConstCatalog, ModuleScope) {
    let mut modules = NameMap::new();
    modules.insert("main".to_string(), exports_with(&[], &[("pick", true)], &[("loop", true)]));
    modules.insert("base".to_string(), exports_with(&[("answer", true)], &[], &[]));
    modules.insert("helper".to_string(), exports_with(&[("zero", true)], &[("pick", true)], &[]));
    let catalog = ModuleCatalog { modules, child_aliases: NameMap::new() };

    let mut base = NameMap::new();
    base.insert("answer".to_string(), ConstValue::Integer(42));
    let mut helper = NameMap::new();
    helper.insert("zero".to_string(), ConstValue::Integer(0));
    let mut values = NameMap::new();
    values.insert("base".to_string(), base);
    values.insert("helper".to_string(), helper);
    let consts = ConstCatalog { values };

    let mut aliases = NameMap::new();
    aliases.insert("h".to_string(), ModulePath("helper".to_string()));
    let scope = ModuleScope::new("main".to_string(), vec![ModulePath("base".to_string())], aliases);
    (catalog, consts, scope)
}

#[test]
fn rewrite_special_literals_rewrites_scripts_and_functions_but_skips_strings() {
    let (catalog, consts, scope) = setup();
    let resolver = ScopeResolver::new(&catalog, &consts, &scope);
    let rewritten = rewrite_special_literals(
        r##"#pick + @loop + "#{ignored}" + '@skip' + #helper.pick"##,
        &resolver,
    )
    .expect("rewrite");

    assert_eq!(
        rewritten,
        r##""main.pick" + "main.loop" + "#{ignored}" + '@skip' + "helper.pick""##
    );
}

#[test]
fn rewrite_special_literals_without_markers_returns_input() {
    let (catalog, consts, scope) = setup();
    let resolver = ScopeResolver::new(&catalog, &consts, &scope);
    assert_eq!(rewrite_special_literals("a + b * 2", &resolver).expect("plain"), "a + b * 2");
    assert!(rewrite_special_literals("#nope", &resolver).is_err());
}

#[test]
fn rewrite_template_special_literals_only_rewrites_expr_segments() {
    let (catalog, consts, scope) = setup();
    let resolver = ScopeResolver::new(&catalog, &consts, &scope);
    let template = rewrite_template_special_literals(
        TextTemplate {
            segments: vec![
                TextSegment::Literal("x=".to_string()),
                TextSegment::Expr("#pick".to_string()),
                TextSegment::Literal(", y=".to_string()),
                TextSegment::Expr("@loop".to_string()),
            ],
        },
        &resolver,
    )
    .expect("template rewrite");

    assert!(matches!(&template.segments[0], TextSegment::Literal(text) if text == "x="));
    assert!(matches!(&template.segments[1], TextSegment::Expr(expr) if expr == "\"main.pick\""));
    assert!(matches!(&template.segments[3], TextSegment::Expr(expr) if expr == "\"main.loop\""));
}

#[test]
fn rewrite_expr_with_consts_covers_blocked_names_and_map_keys() {
    let (catalog, consts, scope) = setup();
    let resolver = ScopeResolver::new(&catalog, &consts, &scope);
    let mut local_env = NameMap::new();
    local_env.insert("name".to_string(), ConstValue::String("neo".to_string()));
    let mut blocked = NameSet::new();
    blocked.insert("later".to_string());

    let rewritten = rewrite_expr_with_consts(
        "name + answer + helper.zero + #{answer: answer, later: later}",
        &local_env,
        &resolver,
        &NameSet::new(),
        &NameSet::new(),
    )
    .expect("rewrite with map keys");
    assert_eq!(rewritten, "\"neo\" + 42 + 0 + #{answer: 42, later: later}");

    let blocked_error = rewrite_expr_with_consts("later", &NameMap::new(), &resolver, &blocked, &NameSet::new())
        .expect_err("blocked");
    assert!(blocked_error.to_string().contains("cannot be referenced before it is defined"));
}

#[test]
fn scan_expr_source_tracks_script_literals_and_refs() {
    let expr = scan_expr_source(r#"target + @main.loop + user.name + "skip @quoted""#, ExprKind::Rhai).expect("scan");
    let kinds = expr.tokens.into_iter().map(|token| token.kind).collect::<Vec<_>>();
    assert_eq!(
        kinds,
        vec![SpecialTokenKind::IdentRef, SpecialTokenKind::ScriptLiteral, SpecialTokenKind::QualifiedRef]
    );
}

#[test]
fn template_parse_text_template_covers_literal_and_expression_shapes() {
    let mixed = parse_text_template("a ${left} b").expect("template");
    assert_eq!(
        mixed.segments,
        vec![
            TextSegment::Literal("a ".to_string()),
            TextSegment::Expr("left".to_string()),
            TextSegment::Literal(" b".to_string()),
        ]
    );

    let plain = parse_text_template("hello").expect("plain");
    assert_eq!(plain.segments, vec![TextSegment::Literal("hello".to_string())]);

    let dangling = parse_text_template("start ${unterminated").expect("dangling");
    assert_eq!(dangling.segments, vec![TextSegment::Literal("start ${unterminated".to_string())]);

    let normalized = parse_text_template("a ${hp LTE 1 AND ready} b").expect("normalized");
    assert_eq!(
        normalized.segments,
        vec![
            TextSegment::Literal("a ".to_string()),
            TextSegment::Expr("hp <= 1 && ready".to_string()),
            TextSegment::Literal(" b".to_string()),
        ]
    );
}

#[test]
fn analyze_parse_text_template_covers_literal_and_expression_shapes() {
    let mixed = parse_text_template("a ${left} b").expect("template");
    assert_eq!(mixed.segments.len(), 3);
}

#[test]
fn semantic_parse_text_template_covers_literal_and_expression_shapes() {
    let empty = parse_text_template("").expect("empty");
    assert_eq!(empty.segments.len(), 1);
    assert!(matches!(&empty.segments[0], TextSegment::Literal(text) if text.is_empty()));

    let literal = parse_text_template("hello").expect("literal");
    assert!(matches!(&literal.segments[..], [TextSegment::Literal(text)] if text == "hello"));

    let expr_only = parse_text_template("${ value }").expect("expr");
    assert!(matches!(&expr_only.segments[..], [TextSegment::Expr(text)] if text == "value"));

    let unclosed = parse_text_template("hello ${name").expect("unclosed");
    assert!(matches!(&unclosed.segments[..], [TextSegment::Literal(text)] if text == "hello ${name"));

    let mixed = parse_text_template("a ${left} b ${ } c").expect("mixed");
    assert_eq!(mixed.segments.len(), 5);
    assert!(matches!(&mixed.segments[0], TextSegment::Literal(text) if text == "a "));
    assert!(matches!(&mixed.segments[1], TextSegment::Expr(text) if text == "left"));
    assert!(matches!(&mixed.segments[2], TextSegment::Literal(text) if text == " b "));
    assert!(matches!(&mixed.segments[3], TextSegment::Expr(text) if text.is_empty()));
    assert!(matches!(&mixed.segments[4], TextSegment::Literal(text) if text == " c"));
}
