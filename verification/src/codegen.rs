//! The C++ code that a parsed program compiles to, as a sequence of pieces: text,
//! and float literals, which the caller writes as the numbers they denote.
use crate::ast::{Expr, Expression, SExpr, SExpression, SStatement, SStmt, Statement, Stmt};
use crate::grammar::digits_value;
use crate::lexer::{chars_of, is_digit_char};
use crate::types::append;
use vstd::prelude::*;

verus! {

/// A piece of generated code: text as it stands, or the text of a float literal
/// that is to be written as the number it denotes.
#[derive(Debug, Clone, PartialEq)]
pub enum Piece {
    Text(String),
    Float(String),
}

pub enum SPiece {
    Text(Seq<char>),
    Float(Seq<char>),
}

impl View for Piece {
    type V = SPiece;

    open spec fn view(&self) -> SPiece {
        match self {
            Piece::Text(t) => SPiece::Text(t@),
            Piece::Float(t) => SPiece::Float(t@),
        }
    }
}

pub open spec fn view_pieces(p: Seq<Piece>) -> Seq<SPiece> {
    p.map_values(|x: Piece| x@)
}

/// The decimal digit `d`.
pub open spec fn digit_char(d: nat) -> char {
    (48 + d) as char
}

/// The decimal text of a natural number.
pub open spec fn nat_text(n: nat) -> Seq<char>
    decreases n,
{
    if n < 10 {
        seq![digit_char(n)]
    } else {
        nat_text(n / 10).push(digit_char(n % 10))
    }
}

/// The decimal text of an integer, with `-` before a negative one.
pub open spec fn int_text(v: int) -> Seq<char> {
    if v < 0 {
        seq!['-'] + nat_text((-v) as nat)
    } else {
        nat_text(v as nat)
    }
}

/// The code of an expression: literals become `Value`s, a variable its name, a
/// call of `print` an output of its first argument; there is no code for
/// anything else.
pub open spec fn expr_pieces(e: SExpression) -> Option<Seq<SPiece>>
    decreases e,
{
    match e.expr {
        SExpr::Bool(b) => Some(
            seq![
                SPiece::Text(
                    if b {
                        "Value((bool) true)"@
                    } else {
                        "Value((bool) false)"@
                    },
                ),
            ],
        ),
        SExpr::Int(v) => Some(seq![SPiece::Text("Value((int64_t) "@ + int_text(v as int) + ")"@)]),
        SExpr::Float(t) => Some(seq![SPiece::Text("Value((float) "@), SPiece::Float(t), SPiece::Text(")"@)]),
        SExpr::Str(s) => Some(seq![SPiece::Text("Value(std::string(\""@ + s + "\"))"@)]),
        SExpr::Variable(n) => Some(seq![SPiece::Text(n)]),
        SExpr::Call { callee, args, .. } => match callee.expr {
            SExpr::Variable(n) => if n == "print"@ && args.len() > 0 {
                match expr_pieces(args[0]) {
                    Some(p) => Some(seq![SPiece::Text("std::cout << "@)] + p),
                    None => None,
                }
            } else {
                None
            },
            _ => None,
        },
        _ => None,
    }
}

/// The code of a statement: a variable declaration or an expression statement.
pub open spec fn stmt_pieces(s: SStatement) -> Option<Seq<SPiece>> {
    match s.stmt {
        SStmt::Variable { name, expr } => {
            let head = seq![SPiece::Text("Value "@ + name.name.item + " = "@)];
            match expr {
                Some(e) => match expr_pieces(e) {
                    Some(p) => Some(head + p + seq![SPiece::Text(";"@)]),
                    None => None,
                },
                None => Some(head + seq![SPiece::Text("Value::null()"@), SPiece::Text(";"@)]),
            }
        },
        SStmt::Expr(e) => match expr_pieces(e) {
            Some(p) => Some(p + seq![SPiece::Text(";"@)]),
            None => None,
        },
        _ => None,
    }
}

/// The code of a program: its statements in order inside `main`.
pub open spec fn program_pieces(stmts: Seq<SStatement>) -> Option<Seq<SPiece>>
    decreases stmts.len(),
{
    if stmts.len() == 0 {
        Some(seq![SPiece::Text("int main(int argc, char** argv) {"@)])
    } else {
        match (program_pieces(stmts.drop_last()), stmt_pieces(stmts.last())) {
            (Some(a), Some(b)) => Some(a + b),
            _ => None,
        }
    }
}

/// The code of a whole program: `main` with its statements, closed.
pub open spec fn program_code(stmts: Seq<SStatement>) -> Option<Seq<SPiece>> {
    match program_pieces(stmts) {
        Some(p) => Some(p.push(SPiece::Text("}"@))),
        None => None,
    }
}

/// The decimal text of an integer, by its `Display`.
#[verifier::external_body]
fn int_string(v: i64) -> (r: String)
    ensures
        r@ == int_text(v as int),
{
    v.to_string()
}

fn text(t: &str) -> (p: Piece)
    ensures
        p@ == SPiece::Text(t@),
{
    let mut s = String::new();
    append(&mut s, t);
    assert(s@ =~= t@);
    Piece::Text(s)
}

fn is_print(n: &String) -> (b: bool)
    ensures
        b == (n@ == "print"@),
{
    proof {
        reveal_strlit("print");
    }
    let c = chars_of(n.as_str());
    if c.len() != 5 {
        return false;
    }
    let b = c[0] == 'p' && c[1] == 'r' && c[2] == 'i' && c[3] == 'n' && c[4] == 't';
    if b {
        assert(c@ =~= "print"@);
    } else {
        assert(c@ != "print"@) by {
            if c@ == "print"@ {
                assert(c@[0] == 'p');
            }
        }
    }
    b
}

/// The code of an expression, or `None` where there is none.
pub fn codegen_expression(expr: &Expression) -> (r: Option<Vec<Piece>>)
    ensures
        match expr_pieces(expr@) {
            Some(p) => r matches Some(v) && view_pieces(v@) == p,
            None => r is None,
        },
    decreases expr@,
{
    match &expr.expr {
        Expr::Bool(b) => {
            let p = if *b {
                text("Value((bool) true)")
            } else {
                text("Value((bool) false)")
            };
            let v = vec![p];
            assert(view_pieces(v@) =~= expr_pieces(expr@)->0);
            Some(v)
        },
        Expr::Int(i) => {
            let mut s = String::new();
            append(&mut s, "Value((int64_t) ");
            let n = int_string(*i);
            append(&mut s, n.as_str());
            append(&mut s, ")");
            assert(s@ =~= "Value((int64_t) "@ + int_text(*i as int) + ")"@);
            let v = vec![Piece::Text(s)];
            assert(view_pieces(v@) =~= expr_pieces(expr@)->0);
            Some(v)
        },
        Expr::Float(t) => {
            let v = vec![text("Value((float) "), Piece::Float(t.clone()), text(")")];
            assert(view_pieces(v@) =~= expr_pieces(expr@)->0);
            Some(v)
        },
        Expr::String(t) => {
            let mut s = String::new();
            append(&mut s, "Value(std::string(\"");
            append(&mut s, t.as_str());
            append(&mut s, "\"))");
            assert(s@ =~= "Value(std::string(\""@ + t@ + "\"))"@);
            let v = vec![Piece::Text(s)];
            assert(view_pieces(v@) =~= expr_pieces(expr@)->0);
            Some(v)
        },
        Expr::Variable(n) => {
            let v = vec![Piece::Text(n.clone())];
            assert(view_pieces(v@) =~= expr_pieces(expr@)->0);
            Some(v)
        },
        Expr::Call { callee, args, .. } => match &callee.expr {
            Expr::Variable(n) => {
                proof {
                    crate::ast::lemma_view_expressions(args@);
                    assert(callee@.expr == SExpr::Variable(n@));
                }
                if is_print(n) && args.len() > 0 {
                    match codegen_expression(&args[0]) {
                        Some(p) => {
                            let mut v = vec![text("std::cout << ")];
                            let ghost head = view_pieces(v@);
                            let mut p = p;
                            v.append(&mut p);
                            assert(view_pieces(v@) =~= head + expr_pieces(args@[0]@)->0);
                            Some(v)
                        },
                        None => None,
                    }
                } else {
                    None
                }
            },
            _ => None,
        },
        _ => None,
    }
}

/// The code of a statement, or `None` where there is none.
pub fn codegen_statement(stmt: &Statement) -> (r: Option<Vec<Piece>>)
    ensures
        match stmt_pieces(stmt@) {
            Some(p) => r matches Some(v) && view_pieces(v@) == p,
            None => r is None,
        },
{
    match &stmt.stmt {
        Stmt::Variable { name, expr } => {
            let mut s = String::new();
            append(&mut s, "Value ");
            append(&mut s, name.name.item.as_str());
            append(&mut s, " = ");
            assert(s@ =~= "Value "@ + name.name.item@ + " = "@);
            let mut v = vec![Piece::Text(s)];
            let ghost head = view_pieces(v@);
            match expr {
                Some(e) => match codegen_expression(e) {
                    Some(p) => {
                        let ghost body = view_pieces(p@);
                        let mut p = p;
                        v.append(&mut p);
                        v.push(text(";"));
                        assert(view_pieces(v@) =~= head + body + seq![SPiece::Text(";"@)]);
                        Some(v)
                    },
                    None => None,
                },
                None => {
                    v.push(text("Value::null()"));
                    v.push(text(";"));
                    assert(view_pieces(v@) =~= head + seq![SPiece::Text("Value::null()"@), SPiece::Text(";"@)]);
                    Some(v)
                },
            }
        },
        Stmt::Expr(e) => match codegen_expression(e) {
            Some(p) => {
                let ghost body = view_pieces(p@);
                let mut v = p;
                v.push(text(";"));
                assert(view_pieces(v@) =~= body + seq![SPiece::Text(";"@)]);
                Some(v)
            },
            None => None,
        },
        _ => None,
    }
}

/// The code of a program, or `None` where a statement has none.
pub fn codegen_program(stmts: &Vec<Statement>) -> (r: Option<Vec<Piece>>)
    ensures
        match program_code(crate::ast::view_statements(stmts@)) {
            Some(p) => r matches Some(v) && view_pieces(v@) == p,
            None => r is None,
        },
{
    proof {
        crate::ast::lemma_view_statements(stmts@);
    }
    let ghost all = crate::ast::view_statements(stmts@);
    let mut v = vec![text("int main(int argc, char** argv) {")];
    let mut i: usize = 0;
    assert(all.take(0) =~= Seq::<SStatement>::empty());
    while i < stmts.len()
        invariant
            i <= stmts.len(),
            all == crate::ast::view_statements(stmts@),
            all.len() == stmts.len(),
            forall|j: int| 0 <= j < stmts.len() ==> #[trigger] all[j] == stmts@[j]@,
            program_pieces(all.take(i as int)) == Some(view_pieces(v@)),
        decreases stmts.len() - i,
    {
        assert(all.take(i + 1).drop_last() =~= all.take(i as int));
        assert(all.take(i + 1).last() == stmts@[i as int]@);
        match codegen_statement(&stmts[i]) {
            Some(p) => {
                let ghost before = view_pieces(v@);
                let ghost body = view_pieces(p@);
                let mut p = p;
                v.append(&mut p);
                assert(view_pieces(v@) =~= before + body);
            },
            None => {
                proof {
                    lemma_program_fails(all, i as int);
                }
                return None;
            },
        }
        i += 1;
    }
    assert(all.take(i as int) =~= all);
    let ghost before = view_pieces(v@);
    v.push(text("}"));
    assert(view_pieces(v@) =~= before.push(SPiece::Text("}"@)));
    Some(v)
}

/// Where one statement has no code, the program has none.
proof fn lemma_program_fails(all: Seq<SStatement>, i: int)
    requires
        0 <= i < all.len(),
        stmt_pieces(all[i]) is None,
    ensures
        program_pieces(all) is None,
    decreases all.len(),
{
    if i < all.len() - 1 {
        lemma_program_fails(all.drop_last(), i);
    }
}


/// The text of code that is a single piece of text, if it is one.
pub open spec fn single_text(o: Option<Seq<SPiece>>) -> Option<Seq<char>> {
    match o {
        Some(p) => if p.len() == 1 {
            match p[0] {
                SPiece::Text(t) => Some(t),
                SPiece::Float(_) => None,
            }
        } else {
            None
        },
        None => None,
    }
}

/// The decimal text of a natural number is made of digits and reads back as
/// that number.
pub proof fn lemma_nat_text_reads_back(n: nat)
    ensures
        nat_text(n).len() > 0,
        forall|i: int| 0 <= i < nat_text(n).len() ==> is_digit_char(#[trigger] nat_text(n)[i]),
        digits_value(nat_text(n)) == n,
    decreases n,
{
    let d = n % 10;
    assert(digit_char(d) as u32 == 48 + d);
    let t = nat_text(n);
    if n >= 10 {
        lemma_nat_text_reads_back(n / 10);
        assert(t.drop_last() =~= nat_text(n / 10));
        assert(t.last() == digit_char(d));
        assert(n == (n / 10) * 10 + d);
        assert(((t.last() as u32) - 0x30) as nat == d);
        assert(digits_value(t.drop_last()) == n / 10);
        assert(digits_value(t) == digits_value(t.drop_last()) * 10 + ((t.last() as u32) - 0x30) as nat);
    } else {
        assert(d == n);
        assert(t.drop_last() =~= Seq::<char>::empty());
        assert(t.last() == digit_char(d));
        assert(((t.last() as u32) - 0x30) as nat == d);
        assert(digits_value(t) == digits_value(t.drop_last()) * 10 + ((t.last() as u32) - 0x30) as nat);
    }
}

/// The code of an integer literal writes its value in decimal, with `-` before
/// a negative one.
pub proof fn lemma_int_code(e: SExpression, v: i64)
    requires
        e.expr == SExpr::Int(v),
    ensures
        single_text(expr_pieces(e)) matches Some(t) && {
            let d = t.subrange(16, t.len() - 1);
            &&& t.len() > 17
            &&& t.subrange(0, 16) == "Value((int64_t) "@
            &&& t.last() == ')'
            &&& v >= 0 ==> (forall|i: int| 0 <= i < d.len() ==> is_digit_char(#[trigger] d[i])) && digits_value(d) == v
            &&& v < 0 ==> d[0] == '-' && (forall|i: int| 1 <= i < d.len() ==> is_digit_char(#[trigger] d[i]))
                && digits_value(d.drop_first()) == -v
        },
{
    reveal_strlit("Value((int64_t) ");
    reveal_strlit(")");
    let d = int_text(v as int);
    let t = "Value((int64_t) "@ + d + ")"@;
    if v >= 0 {
        lemma_nat_text_reads_back(v as nat);
    } else {
        lemma_nat_text_reads_back((-v) as nat);
        assert(d.drop_first() =~= nat_text((-v) as nat));
    }
    assert(t.subrange(16, t.len() - 1) =~= d);
    assert(t.subrange(0, 16) =~= "Value((int64_t) "@);
}

/// The code of a boolean literal writes its own value: `Value((bool) true)` for
/// `true` and `Value((bool) false)` for `false`, so the two differ.
pub proof fn lemma_bool_code(e: SExpression, b: bool)
    requires
        e.expr == SExpr::Bool(b),
    ensures
        single_text(expr_pieces(e)) matches Some(t) && t
            == "Value((bool) "@ + (if b {
            "true"@
        } else {
            "false"@
        }) + ")"@,
        expr_pieces(e) != expr_pieces(SExpression { expr: SExpr::Bool(!b), ..e }),
{
    reveal_strlit("Value((bool) ");
    reveal_strlit("true");
    reveal_strlit("false");
    reveal_strlit(")");
    reveal_strlit("Value((bool) true)");
    reveal_strlit("Value((bool) false)");
    let p = "Value((bool) "@ + (if b { "true"@ } else { "false"@ }) + ")"@;
    if b {
        assert(p =~= "Value((bool) true)"@);
    } else {
        assert(p =~= "Value((bool) false)"@);
    }
    let q = expr_pieces(SExpression { expr: SExpr::Bool(!b), ..e });
    assert("Value((bool) true)"@.len() != "Value((bool) false)"@.len());
    if expr_pieces(e) == q {
        assert(expr_pieces(e)->0[0] == q->0[0]);
    }
}

/// The code of a float literal holds the literal's text, to be written as the
/// number it denotes; the code of a string literal holds the string, and the
/// code of a variable is its name.
pub proof fn lemma_literal_code(e: SExpression)
    ensures
        e.expr matches SExpr::Float(t) ==> expr_pieces(e) == Some(
            seq![SPiece::Text("Value((float) "@), SPiece::Float(t), SPiece::Text(")"@)],
        ),
        e.expr matches SExpr::Str(t) ==> (single_text(expr_pieces(e)) is Some && {
            let c = single_text(expr_pieces(e))->0;
            c.len() >= 22 && c.subrange(19, c.len() - 3) == t
        }),
        e.expr matches SExpr::Variable(n) ==> expr_pieces(e) == Some(seq![SPiece::Text(n)]),
{
    if let SExpr::Str(t) = e.expr {
        reveal_strlit("Value(std::string(\"");
        let c = "Value(std::string(\""@ + t + "\"))"@;
        reveal_strlit("\"))");
        assert(c.subrange(19, c.len() - 3) =~= t);
    }
}

/// A declaration's code names the variable, then gives its value's code (or
/// `Value::null()` where it has none), then `;`.
pub proof fn lemma_declaration_code(s: SStatement, name: crate::ast::SBinding, value: Option<SExpression>)
    requires
        s.stmt == (SStmt::Variable { name, expr: value }),
        value matches Some(e) ==> expr_pieces(e) is Some,
    ensures
        stmt_pieces(s) matches Some(p) && p.len() >= 3 && p[0] == SPiece::Text("Value "@ + name.name.item + " = "@)
            && p.last() == SPiece::Text(";"@) && (value is None ==> p[1] == SPiece::Text("Value::null()"@))
            && (value is Some ==> p.subrange(1, p.len() - 1) == expr_pieces(value->0)->0),
{
    if let Some(e) = value {
        let q = expr_pieces(e)->0;
        lemma_pieces_nonempty(e);
        let p = seq![SPiece::Text("Value "@ + name.name.item + " = "@)] + q + seq![SPiece::Text(";"@)];
        assert(p.subrange(1, p.len() - 1) =~= q);
    }
}

/// The code of an expression, where it has one, is never empty.
pub proof fn lemma_pieces_nonempty(e: SExpression)
    ensures
        expr_pieces(e) matches Some(p) ==> p.len() >= 1,
    decreases e,
{
    if let SExpr::Call { callee, args, .. } = e.expr {
        if args.len() > 0 {
            lemma_pieces_nonempty(args[0]);
        }
    }
}

/// A program's code opens `main`, gives each statement's code in order, and
/// closes `main`.
pub proof fn lemma_program_code(stmts: Seq<SStatement>)
    ensures
        program_code(stmts) is Some ==> program_code(stmts)->0.len() >= 2 && program_code(stmts)->0[0] == SPiece::Text(
            "int main(int argc, char** argv) {"@,
        ) && program_code(stmts)->0.last() == SPiece::Text("}"@),
        stmts.len() > 0 && program_code(stmts) is Some ==> program_code(stmts.drop_last()) is Some
            && stmt_pieces(stmts.last()) is Some && program_code(stmts) == Some(
            program_code(stmts.drop_last())->0.drop_last() + stmt_pieces(stmts.last())->0 + seq![SPiece::Text("}"@)],
        ),
{
    lemma_program_starts(stmts);
    if stmts.len() > 0 {
        if let (Some(a), Some(b)) = (program_pieces(stmts.drop_last()), stmt_pieces(stmts.last())) {
            assert(a.push(SPiece::Text("}"@)).drop_last() =~= a);
            assert((a + b).push(SPiece::Text("}"@)) =~= a + b + seq![SPiece::Text("}"@)]);
        }
    }
}

proof fn lemma_program_starts(stmts: Seq<SStatement>)
    ensures
        program_pieces(stmts) matches Some(p) ==> p.len() >= 1 && p[0] == SPiece::Text(
            "int main(int argc, char** argv) {"@,
        ),
    decreases stmts.len(),
{
    if stmts.len() > 0 {
        lemma_program_starts(stmts.drop_last());
    }
}


/// A call of `print` with an argument writes the argument's code to the output;
/// a call of any other name, or of `print` with no argument, has no code.
pub proof fn lemma_call_code(e: SExpression, callee: SExpression, paren: crate::span::Span, args: Seq<SExpression>)
    requires
        e.expr == (SExpr::Call { callee: Box::new(callee), paren, args }),
    ensures
        callee.expr matches SExpr::Variable(n) && n == "print"@ && args.len() > 0 && expr_pieces(args[0]) is Some
            ==> expr_pieces(e) == Some(seq![SPiece::Text("std::cout << "@)] + expr_pieces(args[0])->0),
        callee.expr matches SExpr::Variable(n) && n != "print"@ ==> expr_pieces(e) is None,
        args.len() == 0 ==> expr_pieces(e) is None,
        !(callee.expr is Variable) ==> expr_pieces(e) is None,
{
}

} // verus!
