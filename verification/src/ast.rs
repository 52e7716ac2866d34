//! The syntax tree that the parser builds: typed expressions and statements.
use crate::lexer::{Token, TokenKind};
use crate::span::{Span, Spanned};
use crate::types::{compatible, type_compatible, SType, STypeExpr, Type, TypeExpression};
use vstd::prelude::*;

verus! {

/// Operators of unary, binary and logical expressions.
#[derive(Debug, Copy, Clone, PartialEq, Eq, Structural)]
pub enum Op {
    Equals,
    NotEquals,
    LessThan,
    LessThanEquals,
    GreaterThan,
    GreaterThanEquals,
    Add,
    Sub,
    Mul,
    Div,
    And,
    Or,
    Not,
}

/// An operator and the place of its token.
#[derive(Debug, Copy, Clone, PartialEq, Eq, Structural)]
pub struct Operator {
    pub op: Op,
    pub span: Span,
}

/// The operator that a token kind denotes, if any.
pub open spec fn op_of_kind(kind: TokenKind) -> Option<Op> {
    match kind {
        TokenKind::Bang => Some(Op::Not),
        TokenKind::EqualEqual => Some(Op::Equals),
        TokenKind::BangEqual => Some(Op::NotEquals),
        TokenKind::Less => Some(Op::LessThan),
        TokenKind::LessEqual => Some(Op::LessThanEquals),
        TokenKind::Greater => Some(Op::GreaterThan),
        TokenKind::GreaterEqual => Some(Op::GreaterThanEquals),
        TokenKind::Plus => Some(Op::Add),
        TokenKind::Minus => Some(Op::Sub),
        TokenKind::Star => Some(Op::Mul),
        TokenKind::Slash => Some(Op::Div),
        TokenKind::And => Some(Op::And),
        TokenKind::Or => Some(Op::Or),
        _ => None,
    }
}

impl Operator {
    /// The operator of an operator token, at the token's place.
    pub fn from_token(token: &Token) -> (o: Operator)
        requires
            op_of_kind(token.kind) is Some,
        ensures
            o == (Operator { op: op_of_kind(token.kind)->0, span: token.span }),
    {
        let op = match token.kind {
            TokenKind::Bang => Op::Not,
            TokenKind::EqualEqual => Op::Equals,
            TokenKind::BangEqual => Op::NotEquals,
            TokenKind::Less => Op::LessThan,
            TokenKind::LessEqual => Op::LessThanEquals,
            TokenKind::Greater => Op::GreaterThan,
            TokenKind::GreaterEqual => Op::GreaterThanEquals,
            TokenKind::Plus => Op::Add,
            TokenKind::Minus => Op::Sub,
            TokenKind::Star => Op::Mul,
            TokenKind::Slash => Op::Div,
            TokenKind::And => Op::And,
            _ => Op::Or,
        };
        Operator { op, span: token.span }
    }
}

/// A declared name and its type.
#[derive(Debug, PartialEq)]
pub struct Binding {
    pub name: Spanned<String>,
    pub ty: Type,
}

pub struct SBinding {
    pub name: Spanned<Seq<char>>,
    pub ty: SType,
}

impl View for Binding {
    type V = SBinding;

    open spec fn view(&self) -> SBinding {
        SBinding { name: self.name@, ty: self.ty@ }
    }
}

impl Binding {
    /// The binding of a name token, of type `any`.
    pub fn from_token(token: &Token) -> (b: Binding)
        ensures
            b@ == (SBinding {
                name: Spanned { item: token.text@, span: token.span },
                ty: SType::Any,
            }),
    {
        Binding { name: Spanned { item: token.text.clone(), span: token.span }, ty: Type::Any }
    }

    pub fn copy(&self) -> (b: Binding)
        ensures
            b@ == self@,
    {
        Binding {
            name: Spanned { item: self.name.item.clone(), span: self.name.span },
            ty: self.ty.clone(),
        }
    }
}

/// The type expression that a parameter binding stands for.
pub open spec fn binding_type_expr(b: SBinding) -> STypeExpr {
    STypeExpr { ty: b.ty, span: b.name.span }
}

impl Binding {
    /// The type expression that a parameter binding stands for.
    pub fn to_type_expr(&self) -> (te: TypeExpression)
        ensures
            te@ == binding_type_expr(self@),
    {
        TypeExpression { span: self.name.span, ty: self.ty.clone() }
    }
}

/// An expression.
#[derive(Debug, PartialEq)]
pub enum Expr {
    Bool(bool),
    Int(i64),
    /// A float literal, kept as the text it was written with.
    Float(String),
    String(String),
    Null,
    Unary { op: Operator, rhs: Box<Expression> },
    Binary { lhs: Box<Expression>, op: Operator, rhs: Box<Expression> },
    Grouping(Box<Expression>),
    Variable(String),
    Assign { name: Spanned<String>, rhs: Box<Expression> },
    // Logical expressions short circuit, unlike Binary
    Logical { lhs: Box<Expression>, op: Operator, rhs: Box<Expression> },
    Call { callee: Box<Expression>, paren: Span, args: Vec<Expression> },
    Get { object: Box<Expression>, name: Spanned<String> },
    SetProperty { object: Box<Expression>, name: Spanned<String>, rhs: Box<Expression> },
    IndexGet { lhs: Box<Expression>, index: Box<Expression> },
    IndexSet { lhs: Box<Expression>, index: Box<Expression>, rhs: Box<Expression> },
    List(Vec<Expression>),
    ListShorthand { value: Box<Expression>, count: Box<Expression> },
    This,
}

/// An expression with its place and its static type.
#[derive(Debug, PartialEq)]
pub struct Expression {
    pub expr: Expr,
    pub span: Span,
    pub ty: Type,
}

pub enum SExpr {
    Bool(bool),
    Int(i64),
    Float(Seq<char>),
    Str(Seq<char>),
    Null,
    Unary { op: Operator, rhs: Box<SExpression> },
    Binary { lhs: Box<SExpression>, op: Operator, rhs: Box<SExpression> },
    Grouping(Box<SExpression>),
    Variable(Seq<char>),
    Assign { name: Spanned<Seq<char>>, rhs: Box<SExpression> },
    Logical { lhs: Box<SExpression>, op: Operator, rhs: Box<SExpression> },
    Call { callee: Box<SExpression>, paren: Span, args: Seq<SExpression> },
    Get { object: Box<SExpression>, name: Spanned<Seq<char>> },
    SetProperty { object: Box<SExpression>, name: Spanned<Seq<char>>, rhs: Box<SExpression> },
    IndexGet { lhs: Box<SExpression>, index: Box<SExpression> },
    IndexSet { lhs: Box<SExpression>, index: Box<SExpression>, rhs: Box<SExpression> },
    List(Seq<SExpression>),
    ListShorthand { value: Box<SExpression>, count: Box<SExpression> },
    This,
}

pub struct SExpression {
    pub expr: SExpr,
    pub span: Span,
    pub ty: SType,
}

pub open spec fn view_expression(e: Expression) -> SExpression
    decreases e,
{
    SExpression { expr: view_expr(e.expr), span: e.span, ty: e.ty@ }
}

pub open spec fn view_expressions(s: Seq<Expression>) -> Seq<SExpression>
    decreases s,
{
    if s.len() == 0 {
        seq![]
    } else {
        view_expressions(s.drop_last()).push(view_expression(s.last()))
    }
}

pub open spec fn view_expr(x: Expr) -> SExpr
    decreases x,
{
    match x {
        Expr::Bool(b) => SExpr::Bool(b),
        Expr::Int(i) => SExpr::Int(i),
        Expr::Float(t) => SExpr::Float(t@),
        Expr::String(t) => SExpr::Str(t@),
        Expr::Null => SExpr::Null,
        Expr::Unary { op, rhs } => SExpr::Unary { op, rhs: Box::new(view_expression(*rhs)) },
        Expr::Binary { lhs, op, rhs } => SExpr::Binary {
            lhs: Box::new(view_expression(*lhs)),
            op,
            rhs: Box::new(view_expression(*rhs)),
        },
        Expr::Grouping(inner) => SExpr::Grouping(Box::new(view_expression(*inner))),
        Expr::Variable(n) => SExpr::Variable(n@),
        Expr::Assign { name, rhs } => SExpr::Assign {
            name: name@,
            rhs: Box::new(view_expression(*rhs)),
        },
        Expr::Logical { lhs, op, rhs } => SExpr::Logical {
            lhs: Box::new(view_expression(*lhs)),
            op,
            rhs: Box::new(view_expression(*rhs)),
        },
        Expr::Call { callee, paren, args } => SExpr::Call {
            callee: Box::new(view_expression(*callee)),
            paren,
            args: view_expressions(args@),
        },
        Expr::Get { object, name } => SExpr::Get {
            object: Box::new(view_expression(*object)),
            name: name@,
        },
        Expr::SetProperty { object, name, rhs } => SExpr::SetProperty {
            object: Box::new(view_expression(*object)),
            name: name@,
            rhs: Box::new(view_expression(*rhs)),
        },
        Expr::IndexGet { lhs, index } => SExpr::IndexGet {
            lhs: Box::new(view_expression(*lhs)),
            index: Box::new(view_expression(*index)),
        },
        Expr::IndexSet { lhs, index, rhs } => SExpr::IndexSet {
            lhs: Box::new(view_expression(*lhs)),
            index: Box::new(view_expression(*index)),
            rhs: Box::new(view_expression(*rhs)),
        },
        Expr::List(items) => SExpr::List(view_expressions(items@)),
        Expr::ListShorthand { value, count } => SExpr::ListShorthand {
            value: Box::new(view_expression(*value)),
            count: Box::new(view_expression(*count)),
        },
        Expr::This => SExpr::This,
    }
}

impl View for Expression {
    type V = SExpression;

    open spec fn view(&self) -> SExpression {
        view_expression(*self)
    }
}

pub proof fn lemma_view_expressions(s: Seq<Expression>)
    ensures
        view_expressions(s).len() == s.len(),
        forall|i: int| 0 <= i < s.len() ==> #[trigger] view_expressions(s)[i] == view_expression(s[i]),
    decreases s.len(),
{
    if s.len() > 0 {
        lemma_view_expressions(s.drop_last());
        assert forall|i: int| 0 <= i < s.len() implies #[trigger] view_expressions(s)[i]
            == view_expression(s[i]) by {
            if i < s.len() - 1 {
                assert(s.drop_last()[i] == s[i]);
            }
        }
    }
}

pub proof fn lemma_view_expressions_push(s: Seq<Expression>, e: Expression)
    ensures
        view_expressions(s.push(e)) == view_expressions(s).push(view_expression(e)),
{
    assert(s.push(e).drop_last() =~= s);
}

/// A class declaration: its methods and its static fields.
#[derive(Debug, PartialEq)]
pub struct Class {
    pub name: Spanned<String>,
    pub methods: Vec<Statement>,
    pub statics: Vec<Statement>,
}

/// A function declaration.
#[derive(Debug, PartialEq)]
pub struct Function {
    pub name: Spanned<String>,
    pub params: Vec<Binding>,
    pub body: Box<Statement>,
    pub ty: TypeExpression,
}

/// A statement.
#[derive(Debug, PartialEq)]
pub enum Stmt {
    Expr(Expression),
    Function(Function),
    Class(Class),
    Return(Option<Expression>),
    Variable { name: Binding, expr: Option<Expression> },
    Block(Vec<Statement>),
    If { cond: Expression, body: Box<Statement>, else_branch: Option<Box<Statement>> },
    Until { cond: Expression, body: Box<Statement> },
}

/// A statement with its place.
#[derive(Debug, PartialEq)]
pub struct Statement {
    pub stmt: Stmt,
    pub span: Span,
}

pub struct SClass {
    pub name: Spanned<Seq<char>>,
    pub methods: Seq<SStatement>,
    pub statics: Seq<SStatement>,
}

pub struct SFunction {
    pub name: Spanned<Seq<char>>,
    pub params: Seq<SBinding>,
    pub body: Box<SStatement>,
    pub ty: STypeExpr,
}

pub enum SStmt {
    Expr(SExpression),
    Function(SFunction),
    Class(SClass),
    Return(Option<SExpression>),
    Variable { name: SBinding, expr: Option<SExpression> },
    Block(Seq<SStatement>),
    If { cond: SExpression, body: Box<SStatement>, else_branch: Option<Box<SStatement>> },
    Until { cond: SExpression, body: Box<SStatement> },
}

pub struct SStatement {
    pub stmt: SStmt,
    pub span: Span,
}

pub open spec fn view_opt_expression(e: Option<Expression>) -> Option<SExpression> {
    match e {
        Some(x) => Some(view_expression(x)),
        None => None,
    }
}

pub open spec fn view_bindings(s: Seq<Binding>) -> Seq<SBinding> {
    s.map_values(|b: Binding| b@)
}

pub open spec fn view_statement(s: Statement) -> SStatement
    decreases s,
{
    SStatement { stmt: view_stmt(s.stmt), span: s.span }
}

pub open spec fn view_statements(s: Seq<Statement>) -> Seq<SStatement>
    decreases s,
{
    if s.len() == 0 {
        seq![]
    } else {
        view_statements(s.drop_last()).push(view_statement(s.last()))
    }
}

pub open spec fn view_stmt(s: Stmt) -> SStmt
    decreases s,
{
    match s {
        Stmt::Expr(e) => SStmt::Expr(view_expression(e)),
        Stmt::Function(f) => SStmt::Function(
            SFunction {
                name: f.name@,
                params: view_bindings(f.params@),
                body: Box::new(view_statement(*f.body)),
                ty: f.ty@,
            },
        ),
        Stmt::Class(c) => SStmt::Class(
            SClass {
                name: c.name@,
                methods: view_statements(c.methods@),
                statics: view_statements(c.statics@),
            },
        ),
        Stmt::Return(e) => SStmt::Return(view_opt_expression(e)),
        Stmt::Variable { name, expr } => SStmt::Variable {
            name: name@,
            expr: view_opt_expression(expr),
        },
        Stmt::Block(stmts) => SStmt::Block(view_statements(stmts@)),
        Stmt::If { cond, body, else_branch } => SStmt::If {
            cond: view_expression(cond),
            body: Box::new(view_statement(*body)),
            else_branch: match else_branch {
                Some(b) => Some(Box::new(view_statement(*b))),
                None => None,
            },
        },
        Stmt::Until { cond, body } => SStmt::Until {
            cond: view_expression(cond),
            body: Box::new(view_statement(*body)),
        },
    }
}

impl View for Statement {
    type V = SStatement;

    open spec fn view(&self) -> SStatement {
        view_statement(*self)
    }
}

pub proof fn lemma_view_statements(s: Seq<Statement>)
    ensures
        view_statements(s).len() == s.len(),
        forall|i: int| 0 <= i < s.len() ==> #[trigger] view_statements(s)[i] == view_statement(s[i]),
    decreases s.len(),
{
    if s.len() > 0 {
        lemma_view_statements(s.drop_last());
        assert forall|i: int| 0 <= i < s.len() implies #[trigger] view_statements(s)[i]
            == view_statement(s[i]) by {
            if i < s.len() - 1 {
                assert(s.drop_last()[i] == s[i]);
            }
        }
    }
}

pub proof fn lemma_view_statements_push(s: Seq<Statement>, e: Statement)
    ensures
        view_statements(s.push(e)) == view_statements(s).push(view_statement(e)),
{
    assert(s.push(e).drop_last() =~= s);
}


/// The numeric result of an arithmetic or comparison operator: int with int gives
/// int, any mix of int and float gives float.
pub open spec fn numeric_result(lt: SType, rt: SType) -> Option<SType> {
    match (lt, rt) {
        (SType::Int, SType::Int) => Some(SType::Int),
        (SType::Int, SType::Float) => Some(SType::Float),
        (SType::Float, SType::Int) => Some(SType::Float),
        (SType::Float, SType::Float) => Some(SType::Float),
        (SType::Null, _) => None,
        (_, SType::Null) => None,
        (SType::Any, _) => Some(SType::Any),
        (_, SType::Any) => Some(SType::Any),
        _ => None,
    }
}

/// The type of a comparison: a bool where both sides are numbers, `any` where a
/// side is `any` and neither is `null`, and no type otherwise.
pub open spec fn comparison_result(lt: SType, rt: SType) -> Option<SType> {
    match numeric_result(lt, rt) {
        Some(SType::Int) => Some(SType::Bool),
        Some(SType::Float) => Some(SType::Bool),
        other => other,
    }
}

/// The type of `lhs op rhs`, or `None` when the operator does not apply to these types.
pub open spec fn result_ty(lt: SType, op: Op, rt: SType) -> Option<SType> {
    match op {
        Op::Add => match (lt, rt) {
            (SType::Str, SType::Str) => Some(SType::Str),
            (SType::Str, SType::Int) => Some(SType::Str),
            (SType::Int, SType::Str) => Some(SType::Str),
            (SType::List(l), SType::List(r)) => if compatible(l.ty, r.ty) {
                Some(SType::List(l))
            } else {
                None
            },
            _ => numeric_result(lt, rt),
        },
        Op::Sub | Op::Mul | Op::Div => numeric_result(lt, rt),
        Op::LessThan | Op::LessThanEquals | Op::GreaterThan | Op::GreaterThanEquals => {
            comparison_result(lt, rt)
        },
        Op::And | Op::Or => match (lt, rt) {
            (SType::Bool, SType::Bool) => Some(SType::Bool),
            (SType::Null, _) => None,
            (_, SType::Null) => None,
            (SType::Any, _) => Some(SType::Any),
            (_, SType::Any) => Some(SType::Any),
            _ => None,
        },
        Op::Equals | Op::NotEquals => Some(SType::Bool),
        Op::Not => None,
    }
}

fn numeric_result_exec(lt: &Type, rt: &Type) -> (r: Option<Type>)
    ensures
        match r {
            Some(t) => numeric_result(lt@, rt@) == Some(t@),
            None => numeric_result(lt@, rt@) is None,
        },
{
    proof {
        crate::types::lemma_view_type_variant(*lt);
        crate::types::lemma_view_type_variant(*rt);
    }
    match (lt, rt) {
        (Type::Int, Type::Int) => Some(Type::Int),
        (Type::Int, Type::Float) => Some(Type::Float),
        (Type::Float, Type::Int) => Some(Type::Float),
        (Type::Float, Type::Float) => Some(Type::Float),
        (Type::Null, _) => None,
        (_, Type::Null) => None,
        (Type::Any, _) => Some(Type::Any),
        (_, Type::Any) => Some(Type::Any),
        _ => None,
    }
}

/// The type of the binary expression `lhs op rhs`, when the operator applies.
pub fn result_type(lhs: &Expression, op: &Operator, rhs: &Expression) -> (r: Option<Type>)
    ensures
        match r {
            Some(t) => result_ty(lhs@.ty, op.op, rhs@.ty) == Some(t@),
            None => result_ty(lhs@.ty, op.op, rhs@.ty) is None,
        },
{
    proof {
        crate::types::lemma_view_type_variant(lhs.ty);
        crate::types::lemma_view_type_variant(rhs.ty);
    }
    match op.op {
        Op::Add => match (&lhs.ty, &rhs.ty) {
            (Type::String, Type::String) => Some(Type::String),
            (Type::String, Type::Int) => Some(Type::String),
            (Type::Int, Type::String) => Some(Type::String),
            (Type::List(l), Type::List(r)) => {
                if type_compatible(&l.ty, &r.ty) {
                    Some(Type::List(Box::new((**l).clone())))
                } else {
                    None
                }
            },
            _ => numeric_result_exec(&lhs.ty, &rhs.ty),
        },
        Op::Sub | Op::Mul | Op::Div => numeric_result_exec(&lhs.ty, &rhs.ty),
        Op::LessThan | Op::LessThanEquals | Op::GreaterThan | Op::GreaterThanEquals => {
            match numeric_result_exec(&lhs.ty, &rhs.ty) {
                Some(Type::Int) => Some(Type::Bool),
                Some(Type::Float) => Some(Type::Bool),
                other => other,
            }
        },
        Op::And | Op::Or => match (&lhs.ty, &rhs.ty) {
            (Type::Bool, Type::Bool) => Some(Type::Bool),
            (Type::Null, _) => None,
            (_, Type::Null) => None,
            (Type::Any, _) => Some(Type::Any),
            (_, Type::Any) => Some(Type::Any),
            _ => None,
        },
        Op::Equals | Op::NotEquals => Some(Type::Bool),
        Op::Not => None,
    }
}


/// The type rules that a typed expression obeys, at every node: literals have
/// their own types, operators the types that `result_ty` gives, a unary `!`
/// applies to a bool and a unary `-` to a number, an assignment has the type of
/// its value, property and index reads are `any`, writes `null`, and a list
/// shorthand's count is compatible with int.
pub open spec fn well_typed(e: SExpression) -> bool
    decreases e,
{
    match e.expr {
        SExpr::Bool(_) => e.ty is Bool,
        SExpr::Int(_) => e.ty is Int,
        SExpr::Float(_) => e.ty is Float,
        SExpr::Str(_) => e.ty is Str,
        SExpr::Null => e.ty is Null,
        SExpr::Unary { op, rhs } => {
            &&& e.ty == rhs.ty
            &&& op.op == Op::Not ==> rhs.ty is Bool
            &&& op.op == Op::Sub ==> (rhs.ty is Int || rhs.ty is Float)
            &&& well_typed(*rhs)
        },
        SExpr::Binary { lhs, op, rhs } => {
            &&& result_ty(lhs.ty, op.op, rhs.ty) == Some(e.ty)
            &&& well_typed(*lhs)
            &&& well_typed(*rhs)
        },
        SExpr::Logical { lhs, op, rhs } => {
            &&& result_ty(lhs.ty, op.op, rhs.ty) == Some(e.ty)
            &&& well_typed(*lhs)
            &&& well_typed(*rhs)
        },
        SExpr::Grouping(inner) => e.ty == inner.ty && well_typed(*inner),
        SExpr::Variable(_) => true,
        SExpr::Assign { rhs, .. } => e.ty == rhs.ty && well_typed(*rhs),
        SExpr::Call { callee, args, .. } => {
            &&& well_typed(*callee)
            &&& forall|i: int| 0 <= i < args.len() ==> well_typed(#[trigger] args[i])
        },
        SExpr::Get { object, .. } => e.ty is Any && well_typed(*object),
        SExpr::SetProperty { object, rhs, .. } => e.ty is Null && well_typed(*object) && well_typed(*rhs),
        SExpr::IndexGet { lhs, index } => e.ty is Any && well_typed(*lhs) && well_typed(*index),
        SExpr::IndexSet { lhs, index, rhs } => {
            &&& e.ty is Null
            &&& well_typed(*lhs)
            &&& well_typed(*index)
            &&& well_typed(*rhs)
        },
        SExpr::List(items) => {
            &&& e.ty is List
            &&& forall|i: int| 0 <= i < items.len() ==> well_typed(#[trigger] items[i])
        },
        SExpr::ListShorthand { value, count } => {
            &&& e.ty == SType::List(Box::new(STypeExpr { ty: value.ty, span: value.span }))
            &&& compatible(count.ty, SType::Int)
            &&& well_typed(*value)
            &&& well_typed(*count)
        },
        SExpr::This => e.ty is Any,
    }
}

/// The rule of a function body against its declared return type `ret`: a final
/// `ret value` must be compatible with it, and without a final `ret` only `any`
/// or `null` may be declared.
pub open spec fn returns_fit(body: SStatement, ret: SType) -> bool {
    match body.stmt {
        SStmt::Block(stmts) => if stmts.len() > 0 && stmts.last().stmt is Return {
            match stmts.last().stmt->Return_0 {
                Some(v) => compatible(v.ty, ret),
                None => true,
            }
        } else {
            ret is Any || ret is Null
        },
        _ => true,
    }
}

/// The type rules that a statement obeys: its expressions are well typed, an
/// initializer is compatible with the declared type, and a function's body fits
/// its return type.
pub open spec fn stmt_well_typed(s: SStatement) -> bool
    decreases s,
{
    match s.stmt {
        SStmt::Expr(e) => well_typed(e),
        SStmt::Variable { name, expr } => match expr {
            Some(e) => well_typed(e) && compatible(name.ty, e.ty),
            None => true,
        },
        SStmt::Return(e) => match e {
            Some(v) => well_typed(v),
            None => true,
        },
        SStmt::Block(stmts) => forall|i: int| 0 <= i < stmts.len() ==> stmt_well_typed(#[trigger] stmts[i]),
        SStmt::If { cond, body, else_branch } => {
            &&& well_typed(cond)
            &&& stmt_well_typed(*body)
            &&& match else_branch {
                Some(b) => stmt_well_typed(*b),
                None => true,
            }
        },
        SStmt::Until { cond, body } => well_typed(cond) && stmt_well_typed(*body),
        SStmt::Function(f) => {
            &&& stmt_well_typed(*f.body)
            &&& f.ty.ty is Function
            &&& returns_fit(*f.body, f.ty.ty->ret_ty.ty)
        },
        SStmt::Class(c) => {
            &&& forall|i: int| 0 <= i < c.methods.len() ==> stmt_well_typed(#[trigger] c.methods[i])
            &&& forall|i: int| 0 <= i < c.statics.len() ==> stmt_well_typed(#[trigger] c.statics[i])
        },
    }
}


/// Each operator token gives the operator that it spells, and no two operator
/// tokens give the same operator: `!` not, `==` equals, `!=` not-equals, `<`,
/// `<=`, `>`, `>=` the comparisons they spell, `+ - * /` the arithmetic
/// operators, `and` and `or` the logical ones; no other token is an operator.
pub proof fn lemma_operator_tokens()
    ensures
        op_of_kind(TokenKind::Bang) == Some(Op::Not),
        op_of_kind(TokenKind::EqualEqual) == Some(Op::Equals),
        op_of_kind(TokenKind::BangEqual) == Some(Op::NotEquals),
        op_of_kind(TokenKind::Less) == Some(Op::LessThan),
        op_of_kind(TokenKind::LessEqual) == Some(Op::LessThanEquals),
        op_of_kind(TokenKind::Greater) == Some(Op::GreaterThan),
        op_of_kind(TokenKind::GreaterEqual) == Some(Op::GreaterThanEquals),
        op_of_kind(TokenKind::Plus) == Some(Op::Add),
        op_of_kind(TokenKind::Minus) == Some(Op::Sub),
        op_of_kind(TokenKind::Star) == Some(Op::Mul),
        op_of_kind(TokenKind::Slash) == Some(Op::Div),
        op_of_kind(TokenKind::And) == Some(Op::And),
        op_of_kind(TokenKind::Or) == Some(Op::Or),
        forall|a: TokenKind, b: TokenKind|
            #![trigger op_of_kind(a), op_of_kind(b)]
            op_of_kind(a) is Some && op_of_kind(a) == op_of_kind(b) ==> a == b,
        forall|k: TokenKind|
            #[trigger] op_of_kind(k) is Some <==> (k == TokenKind::Bang || k == TokenKind::EqualEqual
                || k == TokenKind::BangEqual || k == TokenKind::Less || k == TokenKind::LessEqual
                || k == TokenKind::Greater || k == TokenKind::GreaterEqual || k == TokenKind::Plus
                || k == TokenKind::Minus || k == TokenKind::Star || k == TokenKind::Slash
                || k == TokenKind::And || k == TokenKind::Or),
{
}

/// The operator that `from_token` gives for a token is the one its kind spells,
/// at the token's place; so tokens of different operator kinds give different
/// operators.
pub proof fn lemma_from_token_distinguishes(a: Token, b: Token)
    requires
        op_of_kind(a.kind) is Some,
        op_of_kind(b.kind) is Some,
        a.kind != b.kind,
    ensures
        op_of_kind(a.kind)->0 != op_of_kind(b.kind)->0,
{
    lemma_operator_tokens();
}

/// The arithmetic operators on numbers: int with int gives int, and a float on
/// either side gives float.
pub proof fn lemma_arithmetic_types(op: Op)
    requires
        op == Op::Add || op == Op::Sub || op == Op::Mul || op == Op::Div,
    ensures
        result_ty(SType::Int, op, SType::Int) == Some(SType::Int),
        result_ty(SType::Int, op, SType::Float) == Some(SType::Float),
        result_ty(SType::Float, op, SType::Int) == Some(SType::Float),
        result_ty(SType::Float, op, SType::Float) == Some(SType::Float),
{
}

/// A comparison of two numbers is a bool, whatever kinds of number they are.
pub proof fn lemma_comparison_types(op: Op, lt: SType, rt: SType)
    requires
        op == Op::LessThan || op == Op::LessThanEquals || op == Op::GreaterThan || op == Op::GreaterThanEquals,
        lt is Int || lt is Float,
        rt is Int || rt is Float,
    ensures
        result_ty(lt, op, rt) == Some(SType::Bool),
{
}

/// Equality and inequality apply to any two values and give a bool.
pub proof fn lemma_equality_types(op: Op, lt: SType, rt: SType)
    requires
        op == Op::Equals || op == Op::NotEquals,
    ensures
        result_ty(lt, op, rt) == Some(SType::Bool),
{
}

/// `and` and `or` of two bools give a bool; they do not apply to numbers or
/// strings.
pub proof fn lemma_logical_types(op: Op, lt: SType, rt: SType)
    requires
        op == Op::And || op == Op::Or,
    ensures
        lt is Bool && rt is Bool ==> result_ty(lt, op, rt) == Some(SType::Bool),
        (lt is Int || lt is Float || lt is Str) && !(rt is Any) ==> result_ty(lt, op, rt) is None,
{
}

/// Adding a string to a string or to an int (on either side) gives a string;
/// no other operator applies to a string and a string.
pub proof fn lemma_string_types(op: Op)
    ensures
        result_ty(SType::Str, Op::Add, SType::Str) == Some(SType::Str),
        result_ty(SType::Str, Op::Add, SType::Int) == Some(SType::Str),
        result_ty(SType::Int, Op::Add, SType::Str) == Some(SType::Str),
        op != Op::Add && op != Op::Equals && op != Op::NotEquals ==> result_ty(SType::Str, op, SType::Str) is None,
{
}

/// No operator but `==` and `!=` applies to `null`, on either side.
pub proof fn lemma_null_types(op: Op, t: SType)
    requires
        op != Op::Equals,
        op != Op::NotEquals,
    ensures
        result_ty(SType::Null, op, t) is None,
        result_ty(t, op, SType::Null) is None,
{
}

/// A binary operator with `any` on one side and no `null` gives `any`.
pub proof fn lemma_any_types(op: Op, t: SType)
    requires
        op != Op::Equals,
        op != Op::NotEquals,
        op != Op::Not,
        !(t is Null),
    ensures
        result_ty(SType::Any, op, t) == Some(SType::Any),
        result_ty(t, op, SType::Any) == Some(SType::Any),
{
}


/// Adding two lists of compatible item types gives a list of the first one's
/// item type; lists of incompatible item types do not add, and no other
/// operator but `==` and `!=` applies to two lists.
pub proof fn lemma_list_types(op: Op, l: STypeExpr, r: STypeExpr)
    ensures
        compatible(l.ty, r.ty) ==> result_ty(SType::List(Box::new(l)), Op::Add, SType::List(Box::new(r)))
            == Some(SType::List(Box::new(l))),
        !compatible(l.ty, r.ty) ==> result_ty(SType::List(Box::new(l)), Op::Add, SType::List(Box::new(r))) is None,
        op != Op::Add && op != Op::Equals && op != Op::NotEquals ==> result_ty(
            SType::List(Box::new(l)),
            op,
            SType::List(Box::new(r)),
        ) is None,
{
}

} // verus!
