use nakala::ast::{Binding, Expr, Expression, Op, Operator, Statement, Stmt};
use nakala::error::ParseError;
use nakala::lexer::TokenKind;
use nakala::parser::{parse, parse_checked, Parse, Parser};
use nakala::source::Source;
use nakala::span::{Span, Spanned};
use nakala::symtab::{Sym, Symbol, SymbolTable};
use nakala::types::{Type, TypeExpression};

fn sp(start: usize, end: usize) -> Span {
    Span::new(0, start, end)
}

fn run_with(text: &str, symtab: SymbolTable) -> Result<Parse, ParseError> {
    parse(Source::new(0, text.to_string(), "test".to_string()), symtab)
}

fn run(text: &str) -> Result<Parse, ParseError> {
    run_with(text, SymbolTable::new(vec![]))
}

fn check(expected: Vec<Statement>, text: &str) {
    assert_eq!(run(text).unwrap().stmts, expected);
}

fn check_err(expected: ParseError, text: &str) {
    assert_eq!(run(text).unwrap_err(), expected);
}

fn lit(expr: Expr, start: usize, end: usize, ty: Type) -> Expression {
    Expression { expr, span: sp(start, end), ty }
}

fn int_lit(v: i64, start: usize, end: usize) -> Expression {
    lit(Expr::Int(v), start, end, Type::Int)
}

fn float(text: &str, start: usize, end: usize) -> Expression {
    lit(Expr::Float(text.to_string()), start, end, Type::Float)
}

fn string(text: &str, start: usize, end: usize) -> Expression {
    lit(Expr::String(text.to_string()), start, end, Type::String)
}

fn op(op: Op, start: usize, end: usize) -> Operator {
    Operator { op, span: sp(start, end) }
}

fn binary(lhs: Expression, op: Operator, rhs: Expression, span: Span, ty: Type) -> Expression {
    Expression { expr: Expr::Binary { lhs: Box::new(lhs), op, rhs: Box::new(rhs) }, span, ty }
}

fn expr_stmt(expr: Expression, end: usize) -> Statement {
    Statement { span: Span::new(0, expr.span.start, end), stmt: Stmt::Expr(expr) }
}

#[test]
fn parse_string() {
    check(vec![expr_stmt(string("foo", 0, 5), 6)], r#""foo";"#);
}

#[test]
fn parse_true() {
    check(vec![expr_stmt(lit(Expr::Bool(true), 0, 4, Type::Bool), 5)], "true;");
}

#[test]
fn parse_false() {
    check(vec![expr_stmt(lit(Expr::Bool(false), 0, 5, Type::Bool), 6)], "false;");
}

#[test]
fn parse_null() {
    check(vec![expr_stmt(lit(Expr::Null, 0, 4, Type::Null), 5)], "null;");
}

#[test]
fn parse_integer() {
    check(vec![expr_stmt(int_lit(5, 0, 1), 2)], "5;");
}

#[test]
fn parse_float() {
    check(vec![expr_stmt(float("1.23", 0, 4), 5)], "1.23;");
}

#[test]
fn parse_add() {
    check(
        vec![expr_stmt(binary(int_lit(1, 0, 1), op(Op::Add, 2, 3), int_lit(2, 4, 5), sp(0, 5), Type::Int), 6)],
        "1 + 2;",
    );
}

#[test]
fn parse_sub() {
    check(
        vec![expr_stmt(
            binary(float("1.12", 0, 4), op(Op::Sub, 5, 6), int_lit(2, 7, 8), sp(0, 8), Type::Float),
            9,
        )],
        "1.12 - 2;",
    )
}

#[test]
fn parse_mul() {
    check(
        vec![expr_stmt(
            binary(int_lit(2, 0, 1), op(Op::Mul, 2, 3), float("32.31", 4, 9), sp(0, 9), Type::Float),
            10,
        )],
        "2 * 32.31;",
    );
}

#[test]
fn parse_div() {
    check(
        vec![expr_stmt(
            binary(float("100.5", 0, 5), op(Op::Div, 6, 7), float("0.5", 8, 11), sp(0, 11), Type::Float),
            12,
        )],
        "100.5 / 0.5;",
    );
}

#[test]
fn parse_unary() {
    let e = Expression {
        expr: Expr::Unary { op: op(Op::Sub, 0, 1), rhs: Box::new(float("123.4", 1, 6)) },
        span: sp(0, 6),
        ty: Type::Float,
    };
    check(vec![expr_stmt(e, 7)], "-123.4;");
}

#[test]
fn parse_grouping() {
    let inner = lit(Expr::Grouping(Box::new(float("1.0", 2, 5))), 1, 6, Type::Float);
    let neg = Expression {
        expr: Expr::Unary { op: op(Op::Sub, 9, 10), rhs: Box::new(float("42.3", 10, 14)) },
        span: sp(9, 14),
        ty: Type::Float,
    };
    let sum = binary(inner, op(Op::Add, 7, 8), neg, sp(1, 14), Type::Float);
    let outer = lit(Expr::Grouping(Box::new(sum)), 0, 15, Type::Float);
    check(vec![expr_stmt(outer, 16)], "((1.0) + -42.3);");
}

#[test]
fn parse_not_equal() {
    check(
        vec![expr_stmt(
            binary(
                string("foo", 0, 5),
                op(Op::NotEquals, 6, 8),
                string("bar", 9, 14),
                sp(6, 14),
                Type::Bool,
            ),
            15,
        )],
        r#""foo" != "bar";"#,
    );
}

#[test]
fn parse_equal() {
    check(
        vec![expr_stmt(
            binary(
                float("42.0", 0, 4),
                op(Op::Equals, 5, 7),
                lit(Expr::Null, 8, 12, Type::Null),
                sp(5, 12),
                Type::Bool,
            ),
            13,
        )],
        "42.0 == null;",
    );
}

#[test]
fn parse_less_than() {
    check(
        vec![expr_stmt(
            binary(float("10.0", 0, 4), op(Op::LessThan, 5, 6), float("42.0", 7, 11), sp(5, 11), Type::Bool),
            12,
        )],
        "10.0 < 42.0;",
    );
}

#[test]
fn parse_less_than_equals() {
    check(
        vec![expr_stmt(
            binary(
                float("10.0", 0, 4),
                op(Op::LessThanEquals, 5, 7),
                float("10.0", 8, 12),
                sp(5, 12),
                Type::Bool,
            ),
            13,
        )],
        "10.0 <= 10.0;",
    );
}

#[test]
fn parse_variable_decl() {
    check(
        vec![Statement {
            span: sp(0, 26),
            stmt: Stmt::Variable {
                name: Binding {
                    name: Spanned { item: "something_Int3resting".to_string(), span: sp(4, 25) },
                    ty: Type::Any,
                },
                expr: None,
            },
        }],
        "let something_Int3resting;",
    );
}

/// A table that declares each of `names` as a variable of the given type.
fn table(names: &[(&str, Type)]) -> SymbolTable {
    SymbolTable::new(
        names
            .iter()
            .map(|(n, ty)| Symbol {
                name: Spanned { item: n.to_string(), span: Span::garbage() },
                sym: Sym::Variable,
                ty: ty.clone(),
            })
            .collect(),
    )
}

fn var(name: &str, start: usize, end: usize, ty: Type) -> Expression {
    lit(Expr::Variable(name.to_string()), start, end, ty)
}

fn let_stmt(name: &str, name_start: usize, expr: Option<Expression>, start: usize, end: usize) -> Statement {
    Statement {
        span: sp(start, end),
        stmt: Stmt::Variable {
            name: Binding {
                name: Spanned { item: name.to_string(), span: sp(name_start, name_start + name.len()) },
                ty: Type::Any,
            },
            expr,
        },
    }
}

// A declaration may not reuse a visible name, and its initializer is read before
// the name is declared: `let x = x;` refers to an `x` that must already be
// visible, which the declaration then refuses to shadow. Without an `x` the
// initializer is undeclared.
#[test]
fn parse_variable_decl_with_init() {
    assert_eq!(
        run_with("let x = x;", table(&[("x", Type::Int)])).unwrap_err(),
        ParseError::CannotRedeclareSymbol(0, "x".to_string(), sp(4, 5), Span::garbage())
    );
    check_err(ParseError::UndeclaredVariable(0, sp(8, 9), "x".to_string()), "let x = x;");
}

#[test]
fn parse_variable_assignment() {
    let assign = Expression {
        expr: Expr::Assign {
            name: Spanned { item: "x".to_string(), span: sp(0, 1) },
            rhs: Box::new(string("foobar", 4, 12)),
        },
        span: sp(0, 1),
        ty: Type::String,
    };
    assert_eq!(
        run_with(r#"x = "foobar";"#, table(&[("x", Type::Any)])).unwrap().stmts,
        vec![expr_stmt(assign, 13)]
    );
}

#[test]
fn parse_variable_expr() {
    let e = binary(
        int_lit(100, 0, 3),
        op(Op::Mul, 4, 5),
        var("myVariable", 6, 16, Type::Int),
        sp(0, 16),
        Type::Int,
    );
    assert_eq!(
        run_with("100 * myVariable;", table(&[("myVariable", Type::Int)])).unwrap().stmts,
        vec![expr_stmt(e, 17)]
    );
}

#[test]
fn parse_empty_block() {
    check(vec![Statement { span: sp(0, 2), stmt: Stmt::Block(vec![]) }], "{}");
}

#[test]
fn parse_simple_block() {
    let sum = binary(int_lit(1, 12, 13), op(Op::Add, 14, 15), var("x", 16, 17, Type::Int), sp(12, 17), Type::Int);
    check(
        vec![Statement {
            span: sp(0, 19),
            stmt: Stmt::Block(vec![let_stmt("x", 5, Some(int_lit(1, 9, 10)), 1, 11), expr_stmt(sum, 18)]),
        }],
        "{let x = 1; 1 + x;}",
    );
}

#[test]
fn parse_nested_block() {
    let diff = binary(
        var("foo", 15, 18, Type::Int),
        op(Op::Sub, 19, 20),
        var("bar", 21, 24, Type::Int),
        sp(15, 24),
        Type::Int,
    );
    let inner = Statement { span: sp(13, 27), stmt: Stmt::Block(vec![expr_stmt(diff, 25)]) };
    assert_eq!(
        run_with("{ let x = 5; { foo - bar; } }", table(&[("foo", Type::Int), ("bar", Type::Int)]))
            .unwrap()
            .stmts,
        vec![Statement {
            span: sp(0, 29),
            stmt: Stmt::Block(vec![let_stmt("x", 6, Some(int_lit(5, 10, 11)), 2, 12), inner]),
        }]
    );
}

#[test]
fn declared_variable_can_be_assigned_and_takes_the_new_type() {
    let parse = run("let x = 1; x = 2.5;").unwrap();
    assert_eq!(
        parse.stmts[0],
        Statement {
            span: sp(0, 10),
            stmt: Stmt::Variable {
                name: Binding { name: Spanned { item: "x".to_string(), span: sp(4, 5) }, ty: Type::Any },
                expr: Some(int_lit(1, 8, 9)),
            },
        }
    );
    assert_eq!(
        parse.stmts[1],
        expr_stmt(
            Expression {
                expr: Expr::Assign {
                    name: Spanned { item: "x".to_string(), span: sp(11, 12) },
                    rhs: Box::new(float("2.5", 15, 18)),
                },
                span: sp(11, 12),
                ty: Type::Float,
            },
            19,
        )
    );
    assert_eq!(parse.symtab.lookup("x").unwrap().ty, Type::Float);
    assert!(parse.symtab.at_global_scope());
}

#[test]
fn factors_bind_tighter_than_terms() {
    let mul = binary(int_lit(2, 4, 5), op(Op::Mul, 6, 7), int_lit(3, 8, 9), sp(4, 9), Type::Int);
    check(
        vec![expr_stmt(binary(int_lit(1, 0, 1), op(Op::Add, 2, 3), mul, sp(0, 9), Type::Int), 10)],
        "1 + 2 * 3;",
    );
}

#[test]
fn logical_operators() {
    let t = |b: bool, s: usize, e: usize| lit(Expr::Bool(b), s, e, Type::Bool);
    let and = Expression {
        expr: Expr::Logical { lhs: Box::new(t(true, 0, 4)), op: op(Op::And, 5, 8), rhs: Box::new(t(false, 9, 14)) },
        span: sp(5, 14),
        ty: Type::Bool,
    };
    let or = Expression {
        expr: Expr::Logical { lhs: Box::new(and), op: op(Op::Or, 15, 17), rhs: Box::new(t(true, 18, 22)) },
        span: sp(15, 22),
        ty: Type::Bool,
    };
    check(vec![expr_stmt(or, 23)], "true and false or true;");
}

#[test]
fn list_literal_has_the_type_of_its_items() {
    let list = Expression {
        expr: Expr::List(vec![int_lit(1, 1, 2), int_lit(2, 4, 5)]),
        span: sp(0, 6),
        ty: Type::List(Box::new(TypeExpression { ty: Type::Int, span: sp(0, 6) })),
    };
    check(vec![expr_stmt(list, 7)], "[1, 2];");
}

#[test]
fn empty_list_is_a_list_of_any() {
    let list = Expression {
        expr: Expr::List(vec![]),
        span: sp(0, 2),
        ty: Type::List(Box::new(TypeExpression { ty: Type::Any, span: sp(0, 2) })),
    };
    check(vec![expr_stmt(list, 3)], "[];");
}

#[test]
fn list_shorthand() {
    let e = Expression {
        expr: Expr::ListShorthand { value: Box::new(int_lit(0, 1, 2)), count: Box::new(int_lit(3, 4, 5)) },
        span: sp(0, 6),
        ty: Type::List(Box::new(TypeExpression { ty: Type::Int, span: sp(1, 2) })),
    };
    check(vec![expr_stmt(e, 7)], "[0; 3];");
}

#[test]
fn list_shorthand_after_items_keeps_only_the_last_item() {
    let parse = run("[7, 8; 2];").unwrap();
    match &parse.stmts[0].stmt {
        Stmt::Expr(Expression { expr: Expr::ListShorthand { value, .. }, .. }) => {
            assert_eq!(**value, int_lit(8, 4, 5));
        },
        other => panic!("unexpected statement {:?}", other),
    }
}

#[test]
fn list_items_must_be_compatible() {
    check_err(ParseError::IncompatibleTypes(0, sp(0, 8), Type::Int, sp(4, 7), Type::String), r#"[1, "a"];"#);
}

#[test]
fn list_shorthand_count_must_be_int() {
    check_err(ParseError::ListShorthandCountMustBeInt(0, sp(4, 7)), r#"[0; "x"];"#);
}

#[test]
fn indexing_and_index_assignment() {
    let parse = run("let l = [1]; l[0]; l[0] = 2;").unwrap();
    match &parse.stmts[1].stmt {
        Stmt::Expr(e) => {
            assert!(matches!(e.expr, Expr::IndexGet { .. }));
            assert_eq!(e.ty, Type::Any);
            assert_eq!(e.span, sp(13, 17));
        },
        other => panic!("unexpected statement {:?}", other),
    }
    match &parse.stmts[2].stmt {
        Stmt::Expr(e) => {
            assert!(matches!(e.expr, Expr::IndexSet { .. }));
            assert_eq!(e.ty, Type::Null);
            assert_eq!(e.span, sp(19, 27));
        },
        other => panic!("unexpected statement {:?}", other),
    }
}

#[test]
fn expected_token() {
    check_err(ParseError::ExpectedToken(0, "2".to_string(), TokenKind::Semicolon, sp(10, 11)), "let x = 1 2;");
}

#[test]
fn unexpected_eof_points_at_the_last_byte() {
    check_err(ParseError::UnexpectedEof(0, sp(8, 8)), "let x = 1");
}

#[test]
fn trailing_whitespace_is_read_as_one_more_declaration() {
    check_err(ParseError::UnexpectedEof(0, sp(2, 2)), "1; ");
    assert_eq!(run(" 1;").unwrap().stmts.len(), 1);
}

#[test]
fn empty_source_has_no_statements() {
    let parse = run("").unwrap();
    assert!(parse.stmts.is_empty());
    assert!(parse.symtab.at_global_scope());
}

#[test]
fn invalid_assignment_target() {
    check_err(ParseError::InvalidAssignmentTarget(0, sp(2, 3)), "1 = 2;");
}

#[test]
fn unsupported_operation() {
    check_err(
        ParseError::UnsupportedOperation(0, sp(5, 6), sp(0, 4), Type::Bool, sp(7, 8), Type::Int),
        "true + 1;",
    );
}

#[test]
fn unsupported_unary_operations() {
    check_err(ParseError::UnsupportedUnaryOperation(0, sp(0, 1), sp(1, 2), Type::Int), "!1;");
    check_err(ParseError::UnsupportedUnaryOperation(0, sp(0, 1), sp(1, 4), Type::String), r#"-"a";"#);
}

#[test]
fn unknown_type() {
    check_err(ParseError::UnknownType(0, sp(7, 8)), "let x: 5;");
}

#[test]
fn incompatible_initializer() {
    check_err(ParseError::IncompatibleTypes(0, sp(4, 5), Type::Int, sp(13, 17), Type::Bool), "let x: int = true;");
}

#[test]
fn incompatible_assignment() {
    check_err(
        ParseError::IncompatibleTypes(0, sp(14, 15), Type::Bool, sp(18, 19), Type::Int),
        "let b = true; b = 1;",
    );
}

#[test]
fn redeclaration_names_both_places() {
    check_err(
        ParseError::CannotRedeclareSymbol(0, "x".to_string(), sp(15, 16), sp(4, 5)),
        "let x = 1; let x = 2;",
    );
}

#[test]
fn uncallable_expression() {
    check_err(ParseError::UncallableExpression(0, sp(11, 12), Type::Int), "let x = 1; x();");
}

#[test]
fn only_instances_and_classes_have_properties() {
    check_err(ParseError::OnlyInstancesAndClassesHaveProperties(0, sp(11, 12), Type::Int), "let x = 1; x.y;");
}

#[test]
fn cant_return_from_global_scope() {
    check_err(ParseError::CantReturnFromGlobalScope(0, sp(0, 3)), "ret 1;");
}

#[test]
fn function_declaration() {
    let parse = run("func f(a: int) -> int { ret a; }").unwrap();
    assert_eq!(parse.stmts.len(), 1);
    assert_eq!(parse.stmts[0].span, sp(0, 14));
    match &parse.stmts[0].stmt {
        Stmt::Function(f) => {
            assert_eq!(f.name, Spanned { item: "f".to_string(), span: sp(5, 6) });
            assert_eq!(
                f.params,
                vec![Binding { name: Spanned { item: "a".to_string(), span: sp(7, 8) }, ty: Type::Int }]
            );
            assert_eq!(
                f.ty,
                TypeExpression {
                    ty: Type::Function {
                        params: vec![TypeExpression { ty: Type::Int, span: sp(7, 8) }],
                        ret_ty: Box::new(TypeExpression { ty: Type::Int, span: sp(18, 21) }),
                    },
                    span: sp(5, 6),
                }
            );
            assert_eq!(f.body.span, sp(22, 32));
            match &f.body.stmt {
                Stmt::Block(stmts) => {
                    assert_eq!(
                        stmts[0],
                        Statement {
                            stmt: Stmt::Return(Some(lit(Expr::Variable("a".to_string()), 28, 29, Type::Int))),
                            span: sp(24, 30),
                        }
                    );
                },
                other => panic!("unexpected body {:?}", other),
            }
        },
        other => panic!("unexpected statement {:?}", other),
    }
    let f = parse.symtab.lookup("f").unwrap();
    assert_eq!(f.sym, Sym::Function { arity: 1 });
    assert!(parse.symtab.lookup("a").is_none());
    assert!(parse.symtab.at_global_scope());
}

#[test]
fn function_call_has_the_return_type() {
    let parse = run("func g() -> int { ret 1; } g();").unwrap();
    match &parse.stmts[1].stmt {
        Stmt::Expr(e) => {
            assert!(matches!(e.expr, Expr::Call { .. }));
            assert_eq!(e.ty, Type::Int);
        },
        other => panic!("unexpected statement {:?}", other),
    }
}

#[test]
fn function_without_ret_cannot_declare_a_return_type() {
    check_err(
        ParseError::FunctionHasIncompatibleReturnType(0, sp(12, 15), Type::Int, sp(19, 19), Type::Null),
        "func f() -> int { }",
    );
}

#[test]
fn returned_value_must_fit_the_return_type() {
    check_err(
        ParseError::IncompatibleTypes(0, sp(12, 15), Type::Int, sp(22, 26), Type::Bool),
        "func f() -> int { ret true; }",
    );
}

#[test]
fn class_declaration_and_instances() {
    let parse = run("class C { static n: int = 1; m() { ret 2; } } let c = C(); c.n;").unwrap();
    assert_eq!(parse.stmts.len(), 3);
    match &parse.stmts[0].stmt {
        Stmt::Class(c) => {
            assert_eq!(c.name.item, "C");
            assert_eq!(c.statics.len(), 1);
            assert_eq!(c.methods.len(), 1);
        },
        other => panic!("unexpected statement {:?}", other),
    }
    let c = parse.symtab.lookup("C").unwrap();
    assert_eq!(c.ty, Type::Class("C".to_string()));
    match &c.sym {
        Sym::Class { methods, statics } => {
            assert_eq!(methods.get(&"m".to_string()).unwrap().sym, Sym::Function { arity: 0 });
            assert_eq!(statics.get(&"n".to_string()).unwrap().ty, Type::Int);
        },
        other => panic!("unexpected symbol {:?}", other),
    }
    assert_eq!(parse.symtab.lookup("c").unwrap().ty, Type::Instance("C".to_string()));
    match &parse.stmts[2].stmt {
        Stmt::Expr(e) => {
            assert!(matches!(e.expr, Expr::Get { .. }));
            assert_eq!(e.ty, Type::Any);
        },
        other => panic!("unexpected statement {:?}", other),
    }
}

#[test]
fn constructor_arguments_are_checked() {
    check_err(
        ParseError::IncompatibleTypes(0, sp(22, 23), Type::Int, sp(38, 42), Type::Bool),
        "class D { constructor(a: int) { } } D(true);",
    );
}

#[test]
fn enum_members_are_numbered_statics() {
    let parse = run("enum E { A, B } E.A;").unwrap();
    let member = |name: &str, value: i64, start: usize, end: usize| Statement {
        stmt: Stmt::Variable {
            name: Binding { name: Spanned { item: name.to_string(), span: sp(start, end) }, ty: Type::Int },
            expr: Some(Expression { expr: Expr::Int(value), span: Span::garbage(), ty: Type::Int }),
        },
        span: sp(start, end),
    };
    match &parse.stmts[0].stmt {
        Stmt::Class(c) => {
            assert_eq!(c.name, Spanned { item: "E".to_string(), span: sp(5, 6) });
            assert!(c.methods.is_empty());
            assert_eq!(c.statics, vec![member("A", 0, 9, 10), member("B", 1, 12, 13)]);
        },
        other => panic!("unexpected statement {:?}", other),
    }
    assert_eq!(parse.stmts[0].span, sp(0, 15));
    assert_eq!(parse.symtab.lookup("E").unwrap().ty, Type::Class("E".to_string()));
}

#[test]
fn if_until_and_else() {
    let parse = run("if true { } else { } until false { }").unwrap();
    match &parse.stmts[0].stmt {
        Stmt::If { else_branch, body, .. } => {
            assert!(else_branch.is_some());
            assert_eq!(body.stmt, Stmt::Block(vec![]));
        },
        other => panic!("unexpected statement {:?}", other),
    }
    assert_eq!(parse.stmts[0].span, sp(0, 11));
    assert!(matches!(parse.stmts[1].stmt, Stmt::Until { .. }));
    assert!(parse.symtab.at_global_scope());
}

#[test]
fn blocks_open_a_scope_that_they_close() {
    let parse = run("if true { let y = 1; }").unwrap();
    assert!(parse.symtab.lookup("y").is_none());
    assert!(parse.symtab.at_global_scope());
}

#[test]
fn symbol_table_carries_over_to_the_next_parse() {
    let first = run("let x = 1;").unwrap();
    let second = run_with("x + 1;", first.symtab).unwrap();
    assert_eq!(second.stmts.len(), 1);
}

#[test]
fn builtins_are_callable() {
    let show = Symbol {
        name: Spanned { item: "show".to_string(), span: Span::garbage() },
        sym: Sym::Function { arity: 1 },
        ty: Type::Function {
            params: vec![TypeExpression { ty: Type::Any, span: Span::garbage() }],
            ret_ty: Box::new(TypeExpression { ty: Type::Null, span: Span::garbage() }),
        },
    };
    let parse = run_with("show(1);", SymbolTable::new(vec![show])).unwrap();
    match &parse.stmts[0].stmt {
        Stmt::Expr(e) => assert_eq!(e.ty, Type::Null),
        other => panic!("unexpected statement {:?}", other),
    }
}

// `print` is a keyword, so a builtin of that name cannot be called.
#[test]
fn print_is_a_keyword() {
    check_err(ParseError::ExpectedExpression(0, sp(0, 5)), "print)1(;");
}

#[test]
fn parser_new_then_parse() {
    let source = Source::new(2, "1;".to_string(), "x".to_string());
    let parse = Parser::new(source, SymbolTable::new(vec![])).parse().unwrap();
    assert_eq!(parse.stmts[0].span, Span::new(2, 0, 2));
}

#[test]
fn coarse_rules_for_operator_results() {
    let s = |t: &str| string(t, 0, 1);
    assert_eq!(nakala::type_check::result_type(&s("a"), &op(Op::Add, 0, 1), &s("b")), Some(Type::String));
    assert_eq!(nakala::type_check::result_type(&s("a"), &op(Op::Add, 0, 1), &int_lit(1, 0, 1)), None);
    assert_eq!(nakala::type_check::result_type(&int_lit(1, 0, 1), &op(Op::Div, 0, 1), &float("2.0", 0, 1)), Some(Type::Float));
    assert_eq!(
        nakala::type_check::result_type(&lit(Expr::Bool(true), 0, 1, Type::Bool), &op(Op::Or, 0, 1), &lit(Expr::Null, 0, 1, Type::Any)),
        Some(Type::Any)
    );
    assert_eq!(nakala::type_check::result_type(&int_lit(1, 0, 1), &op(Op::NotEquals, 0, 1), &s("x")), Some(Type::Bool));
    assert_eq!(nakala::type_check::result_type(&int_lit(1, 0, 1), &op(Op::Not, 0, 1), &int_lit(1, 0, 1)), None);
}

#[test]
fn operator_results_of_the_parser() {
    let s = |t: &str| string(t, 0, 1);
    assert_eq!(nakala::ast::result_type(&s("a"), &op(Op::Add, 0, 1), &int_lit(1, 0, 1)), Some(Type::String));
    assert_eq!(nakala::ast::result_type(&lit(Expr::Null, 0, 1, Type::Null), &op(Op::Add, 0, 1), &lit(Expr::Null, 0, 1, Type::Any)), None);
    assert_eq!(nakala::ast::result_type(&int_lit(1, 0, 1), &op(Op::LessThan, 0, 1), &int_lit(2, 0, 1)), Some(Type::Bool));
}

#[test]
fn every_top_level_declaration_is_in_the_returned_table() {
    let parse = run("let a = 1; func f() { } class C { } enum E { A }").unwrap();
    assert_eq!(parse.stmts.len(), 4);
    for name in ["a", "f", "C", "E"] {
        assert!(parse.symtab.lookup(name).is_some(), "{} is not declared", name);
    }
    assert!(parse.symtab.at_global_scope());
}

#[test]
fn a_variable_takes_the_type_of_its_initializer() {
    let parse = run("let x: float = 1; x + 2;").unwrap();
    assert_eq!(parse.symtab.lookup("x").unwrap().ty, Type::Int);
    match &parse.stmts[1].stmt {
        Stmt::Expr(e) => assert_eq!(e.ty, Type::Int),
        other => panic!("unexpected statement {:?}", other),
    }
}

#[test]
fn comparisons_are_bool() {
    let parse = run("let b: bool = 1 < 2.5; let c = 1 >= 2;").unwrap();
    assert_eq!(parse.symtab.lookup("b").unwrap().ty, Type::Bool);
    assert_eq!(parse.symtab.lookup("c").unwrap().ty, Type::Bool);
    let any = lit(Expr::Null, 0, 1, Type::Any);
    assert_eq!(nakala::ast::result_type(&any, &op(Op::GreaterThan, 0, 1), &int_lit(1, 0, 1)), Some(Type::Any));
    let null = lit(Expr::Null, 0, 1, Type::Null);
    assert_eq!(nakala::ast::result_type(&null, &op(Op::GreaterThan, 0, 1), &int_lit(1, 0, 1)), None);
    assert_eq!(
        nakala::type_check::result_type(&float("1.0", 0, 1), &op(Op::LessThanEquals, 0, 1), &int_lit(1, 0, 1)),
        Some(Type::Bool)
    );
}

#[test]
fn a_function_takes_the_type_of_its_final_ret() {
    let parse = run("func g() { ret 1; } g();").unwrap();
    match &parse.symtab.lookup("g").unwrap().ty {
        Type::Function { ret_ty, .. } => assert_eq!(ret_ty.ty, Type::Int),
        other => panic!("unexpected type {:?}", other),
    }
    match &parse.stmts[1].stmt {
        Stmt::Expr(e) => assert_eq!(e.ty, Type::Int),
        other => panic!("unexpected statement {:?}", other),
    }
}

fn run_checked(text: &str) -> Option<Result<Parse, ParseError>> {
    parse_checked(Source::new(0, text.to_string(), "test".to_string()), SymbolTable::new(vec![]))
}

#[test]
fn checked_parse_gives_what_parse_gives() {
    for text in ["1 + 2;", "let x = 1; x = 2;", "1 +;", "let y: int = true;"] {
        assert_eq!(run_checked(text), Some(run(text)));
    }
}

#[test]
fn checked_parse_stops_on_an_int_that_does_not_fit() {
    assert_eq!(run_checked("9223372036854775807;").map(|r| r.is_ok()), Some(true));
    assert_eq!(run_checked("9223372036854775808;"), None);
    assert_eq!(run_checked("1 + 99999999999999999999;"), None);
}

#[test]
fn checked_parse_stops_on_a_class_that_left_scope() {
    assert_eq!(run_checked("let a; { class A { } a = A; } a();"), None);
}

#[test]
fn a_function_stays_a_function_when_its_body_assigns_its_name() {
    let parse = run("let g; func f(a) { f = g; }").unwrap();
    let f = parse.symtab.lookup("f").unwrap();
    assert_eq!(f.sym, Sym::Function { arity: 1 });
    assert_eq!(f.ty, Type::Any);
    assert!(parse.symtab.lookup("a").is_none());
    assert!(parse.symtab.at_global_scope());
}
