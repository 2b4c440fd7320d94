use rhai::{Engine, Expr, Stmt, StmtBlock};
use sl_compiler::collections::NameSet;
use sl_compiler::expr::analysis::{analyze_ast, ExprAnalysis, ScriptExpr, ScriptStmt};

fn convert_block(block: &StmtBlock) -> Vec<ScriptStmt> {
    block.statements().iter().map(convert_stmt).collect()
}

fn convert_stmt(stmt: &Stmt) -> ScriptStmt {
    match stmt {
        Stmt::Noop(..) => ScriptStmt::Noop,
        Stmt::Var(x, ..) => ScriptStmt::Var {
            name: x.0.as_str().to_string(),
            init: convert_expr(&x.1),
        },
        Stmt::If(x, ..) => ScriptStmt::If {
            cond: convert_expr(&x.expr),
            body: convert_block(&x.body),
            branch: convert_block(&x.branch),
        },
        Stmt::Switch(x, ..) => {
            let (expr, cases) = &**x;
            ScriptStmt::Switch {
                expr: convert_expr(expr),
                cases: cases
                    .expressions
                    .iter()
                    .map(|case| (convert_expr(&case.lhs), convert_expr(&case.rhs)))
                    .collect(),
            }
        }
        Stmt::While(x, ..) | Stmt::Do(x, ..) => ScriptStmt::While {
            cond: convert_expr(&x.expr),
            body: convert_block(&x.body),
        },
        Stmt::For(x, ..) => ScriptStmt::For {
            var: x.0.as_str().to_string(),
            counter: x.1.as_ref().map(|c| c.as_str().to_string()),
            iter: convert_expr(&x.2.expr),
            body: convert_block(&x.2.body),
        },
        Stmt::Assignment(x) => ScriptStmt::Assignment {
            lhs: convert_expr(&x.1.lhs),
            rhs: convert_expr(&x.1.rhs),
            op_assign: x.0.is_op_assignment(),
        },
        Stmt::FnCall(x, ..) => ScriptStmt::FnCall(x.args.iter().map(convert_expr).collect()),
        Stmt::Block(x) => ScriptStmt::Block(convert_block(x)),
        Stmt::TryCatch(x, ..) => ScriptStmt::TryCatch {
            body: convert_block(&x.body),
            catch_var: match &x.expr {
                Expr::Variable(v, ..) => Some(v.1.to_string()),
                _ => None,
            },
            branch: convert_block(&x.branch),
        },
        Stmt::Expr(e) => ScriptStmt::Expr(convert_expr(e)),
        Stmt::BreakLoop(e, ..) | Stmt::Return(e, ..) => {
            ScriptStmt::Exit(e.as_ref().map(|e| convert_expr(e)))
        }
        Stmt::Import(x, ..) => ScriptStmt::Import(convert_expr(&x.0)),
        _ => ScriptStmt::Other,
    }
}

fn convert_expr(expr: &Expr) -> ScriptExpr {
    match expr {
        Expr::Variable(x, ..) => ScriptExpr::Variable {
            name: x.1.to_string(),
            qualified: !x.2.is_empty(),
        },
        Expr::InterpolatedString(items, ..) | Expr::Array(items, ..) => {
            ScriptExpr::Items(items.iter().map(convert_expr).collect())
        }
        Expr::And(items, ..) | Expr::Or(items, ..) | Expr::Coalesce(items, ..) => {
            ScriptExpr::Items(items.iter().map(convert_expr).collect())
        }
        Expr::Map(map, ..) => ScriptExpr::Items(map.0.iter().map(|(_, e)| convert_expr(e)).collect()),
        Expr::Stmt(block) => ScriptExpr::Block(convert_block(block)),
        Expr::FnCall(x, ..) | Expr::MethodCall(x, ..) => {
            ScriptExpr::Items(x.args.iter().map(convert_expr).collect())
        }
        Expr::Dot(x, ..) | Expr::Index(x, ..) => ScriptExpr::Access(Box::new(convert_expr(&x.lhs))),
        Expr::Custom(x, ..) => ScriptExpr::Items(x.inputs.iter().map(convert_expr).collect()),
        _ => ScriptExpr::Leaf,
    }
}

fn known(names: &[&str]) -> NameSet {
    let mut set = NameSet::new();
    for name in names {
        set.insert(name.to_string());
    }
    set
}

fn analyze_compiled_expr(source: &str, known_vars: &NameSet) -> Result<ExprAnalysis, String> {
    let ast = Engine::new().compile(source).map_err(|e| e.to_string())?;
    let stmts: Vec<ScriptStmt> = ast.statements().iter().map(convert_stmt).collect();
    Ok(analyze_ast(&stmts, known_vars))
}

#[test]
fn analyze_compiled_expr_covers_reads_shadowing_and_simple_var() {
    let simple = analyze_compiled_expr("name", &known(&["name"])).expect("analysis");
    assert_eq!(simple.referenced_vars, vec!["name".to_string()]);
    assert_eq!(simple.is_simple_var_ref, Some("name".to_string()));
    assert!(simple.reads_external);
    assert!(!simple.writes_external);

    let shadowed =
        analyze_compiled_expr("let name = 1; name + answer", &known(&["name", "answer"]))
            .expect("analysis");
    assert_eq!(shadowed.referenced_vars, vec!["answer".to_string()]);
    assert_eq!(shadowed.is_simple_var_ref, None);
    assert!(shadowed.reads_external);
}

#[test]
fn analyze_compiled_expr_covers_property_map_string_and_calls() {
    let property = analyze_compiled_expr(
        r#"user.name + user["name"] + #{name: value}["name"] + "name" + run(x) + invoke(fn_ref, [x])"#,
        &known(&["user", "value", "x", "fn_ref"]),
    )
    .expect("analysis");
    assert_eq!(
        property.referenced_vars,
        vec![
            "fn_ref".to_string(),
            "user".to_string(),
            "value".to_string(),
            "x".to_string(),
        ]
    );
}

#[test]
fn analyze_compiled_expr_covers_assignment_blocks_loops_and_catch() {
    let assignment = analyze_compiled_expr("x = answer; answer += 1;", &known(&["x", "answer"]))
        .expect("analysis");
    assert_eq!(
        assignment.referenced_vars,
        vec!["answer".to_string(), "x".to_string()]
    );
    assert!(assignment.reads_external);
    assert!(assignment.writes_external);

    let block = analyze_compiled_expr(
        "if cond { let x = 1; x + answer } for x in items { x + answer } try { foo } catch (err) { err + answer }",
        &known(&["cond", "items", "answer", "foo", "err"]),
    )
    .expect("analysis");
    assert_eq!(
        block.referenced_vars,
        vec![
            "answer".to_string(),
            "cond".to_string(),
            "items".to_string()
        ]
    );
    assert!(block.reads_external);
    assert!(!block.writes_external);
}

#[test]
fn analyze_ast_marks_writes_and_ignores_qualified_and_locals() {
    let stmts = vec![
        ScriptStmt::Var { name: "t".to_string(), init: ScriptExpr::Leaf },
        ScriptStmt::Assignment {
            lhs: ScriptExpr::Variable { name: "t".to_string(), qualified: false },
            rhs: ScriptExpr::Variable { name: "m".to_string(), qualified: true },
            op_assign: false,
        },
        ScriptStmt::Assignment {
            lhs: ScriptExpr::Access(Box::new(ScriptExpr::Variable { name: "g".to_string(), qualified: false })),
            rhs: ScriptExpr::Leaf,
            op_assign: false,
        },
    ];
    let r = analyze_ast(&stmts, &known(&["t", "m", "g"]));
    assert_eq!(r.referenced_vars, vec!["g".to_string(), "m".to_string()]);
    assert!(r.writes_external);
    assert!(r.reads_external);
    assert_eq!(r.is_simple_var_ref, None);
}
