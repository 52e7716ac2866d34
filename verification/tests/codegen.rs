use nakala::ast::{Expr, Expression, Statement, Stmt};
use nakala::codegen::{codegen_program, codegen_statement, Piece};
use nakala::parser::parse;
use nakala::source::Source;
use nakala::span::{Span, Spanned};
use nakala::symtab::{Sym, Symbol, SymbolTable};
use nakala::types::{Type, TypeExpression};

fn print_symbol() -> Symbol {
    Symbol {
        name: Spanned { item: "print".to_string(), span: Span::garbage() },
        sym: Sym::Function { arity: 1 },
        ty: Type::Function {
            params: vec![TypeExpression { ty: Type::Any, span: Span::garbage() }],
            ret_ty: Box::new(TypeExpression { ty: Type::Null, span: Span::garbage() }),
        },
    }
}

fn code(text: &str) -> Option<Vec<Piece>> {
    let p = parse(Source::new(0, text.to_string(), "t".to_string()), SymbolTable::new(vec![print_symbol()])).unwrap();
    codegen_program(&p.stmts)
}

fn t(s: &str) -> Piece {
    Piece::Text(s.to_string())
}

#[test]
fn declarations_and_prints_become_cpp() {
    assert_eq!(
        code("let x = 1234567; let y = 2.50; let z; \"hi\"; true;"),
        Some(vec![
            t("int main(int argc, char** argv) {"),
            t("Value x = "),
            t("Value((int64_t) 1234567)"),
            t(";"),
            t("Value y = "),
            t("Value((float) "),
            Piece::Float("2.50".to_string()),
            t(")"),
            t(";"),
            t("Value z = "),
            t("Value::null()"),
            t(";"),
            t("Value(std::string(\"hi\"))"),
            t(";"),
            t("Value((bool) true)"),
            t(";"),
            t("}"),
        ])
    );
}

#[test]
fn an_empty_program_is_an_empty_main() {
    assert_eq!(code(""), Some(vec![t("int main(int argc, char** argv) {"), t("}")]));
}

#[test]
fn what_has_no_code_gives_none() {
    assert_eq!(code("1 + 2;"), None);
    assert_eq!(code("let a = 1; a = 2;"), None);
    assert_eq!(code("if true { }"), None);
}

#[test]
fn a_call_of_print_writes_its_argument() {
    let sp = Span::new(0, 0, 1);
    let var = |n: &str| Expression { expr: Expr::Variable(n.to_string()), span: sp, ty: Type::Any };
    let call = |callee: &str, args: Vec<Expression>| Statement {
        stmt: Stmt::Expr(Expression {
            expr: Expr::Call { callee: Box::new(var(callee)), paren: sp, args },
            span: sp,
            ty: Type::Null,
        }),
        span: sp,
    };
    assert_eq!(
        codegen_statement(&call("print", vec![var("x")])),
        Some(vec![t("std::cout << "), t("x"), t(";")])
    );
    assert_eq!(codegen_statement(&call("print", vec![])), None);
    assert_eq!(codegen_statement(&call("show", vec![var("x")])), None);
}
