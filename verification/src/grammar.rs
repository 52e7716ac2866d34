//! What the parser computes, stated as functions from a parser state to an outcome.
//!
//! A state is the position in the token sequence and the scopes of the symbol table.
//! Each function returns the parsed value with the state after it, an error, or
//! `Halt` where the parser does not return: it panics on an internal
//! inconsistency or on an integer literal that does not fit in 64 bits, and a
//! loop that read no token would not stop (`reads` shows that every step that
//! succeeds reads tokens, so that last case does not arise).
use crate::ast::{binding_type_expr, op_of_kind, result_ty, Op, Operator, SBinding, SClass, SExpr, SExpression, SFunction, SStatement, SStmt};
use crate::error::SParseError;
use crate::lexer::{TokenKind, TokenModel};
use crate::source::skip_trivia;
use crate::span::{combined_span, garbage_span, SourceId, Span, Spanned};
use crate::symtab::{insert_scopes, lookup_scopes, update_scopes, SSym, SSymbol, Scopes};
use crate::types::{compatible, SType, STypeExpr};
use vstd::prelude::*;

verus! {

/// What does not change while parsing: the tokens, the source and its end.
pub struct Ctx {
    pub toks: Seq<TokenModel>,
    pub id: SourceId,
    pub eof: Span,
}

/// The position in the tokens and the scopes of the symbol table.
pub struct PState {
    pub cursor: int,
    pub scopes: Scopes,
}

/// The result of parsing: a value and the state after it, an error, or no return.
pub enum Outcome<T> {
    Done(T, PState),
    Fail(SParseError),
    Halt,
}

/// The failure or halt of `o`, as an outcome of another type.
pub open spec fn lift<A, B>(o: Outcome<A>) -> Outcome<B> {
    match o {
        Outcome::Fail(e) => Outcome::Fail(e),
        _ => Outcome::Halt,
    }
}

pub open spec fn weakly(ctx: Ctx, a: PState, b: PState) -> bool {
    a.cursor <= b.cursor <= ctx.toks.len()
}

pub open spec fn progress(ctx: Ctx, a: PState, b: PState) -> bool {
    a.cursor < b.cursor <= ctx.toks.len()
}

pub open spec fn span2(a: Span, b: Span) -> Span {
    combined_span(seq![a, b])
}

pub open spec fn with_cursor(st: PState, c: int) -> PState {
    PState { cursor: c, scopes: st.scopes }
}

pub open spec fn with_scopes(st: PState, scopes: Scopes) -> PState {
    PState { cursor: st.cursor, scopes }
}

// ---------------------------------------------------------------------------
// Tokens
/// Skips trivia; whether the next token has kind `k`.
pub open spec fn p_at(ctx: Ctx, st: PState, k: TokenKind) -> (bool, PState) {
    let c = skip_trivia(ctx.toks, st.cursor);
    (c < ctx.toks.len() && ctx.toks[c].kind == k, with_cursor(st, c))
}

/// Skips trivia; whether the next token has one of the kinds `ks`.
pub open spec fn p_at_set(ctx: Ctx, st: PState, ks: Seq<TokenKind>) -> (bool, PState) {
    let c = skip_trivia(ctx.toks, st.cursor);
    (c < ctx.toks.len() && ks.contains(ctx.toks[c].kind), with_cursor(st, c))
}

/// Skips trivia and consumes the next token; at the end of the text, an error.
pub open spec fn p_bump(ctx: Ctx, st: PState) -> Outcome<TokenModel> {
    let c = skip_trivia(ctx.toks, st.cursor);
    if 0 <= c < ctx.toks.len() {
        Outcome::Done(ctx.toks[c], with_cursor(st, c + 1))
    } else {
        Outcome::Fail(SParseError::UnexpectedEof(ctx.id, ctx.eof))
    }
}

/// Consumes the next token, which must have kind `k`.
pub open spec fn p_expect(ctx: Ctx, st: PState, k: TokenKind) -> Outcome<TokenModel> {
    match p_bump(ctx, st) {
        Outcome::Done(t, s) => if t.kind == k {
            Outcome::Done(t, s)
        } else {
            Outcome::Fail(SParseError::ExpectedToken(ctx.id, t.text, k, t.span))
        },
        o => o,
    }
}

// ---------------------------------------------------------------------------
// Type rules
pub open spec fn p_result_type(ctx: Ctx, lhs: SExpression, op: Operator, rhs: SExpression) -> Result<
    SType,
    SParseError,
> {
    match result_ty(lhs.ty, op.op, rhs.ty) {
        Some(t) => Ok(t),
        None => Err(
            SParseError::UnsupportedOperation(ctx.id, op.span, lhs.span, lhs.ty, rhs.span, rhs.ty),
        ),
    }
}

/// Whether an expression can be called: a variable of function, class or unknown
/// type, or a property.
pub open spec fn p_is_callable(ctx: Ctx, st: PState, callee: SExpression) -> Option<SParseError> {
    let err = Some(SParseError::UncallableExpression(ctx.id, callee.span, callee.ty));
    match callee.expr {
        SExpr::Variable(name) => match lookup_scopes(st.scopes, name) {
            Some(entry) => if entry.ty is Any || entry.ty is Function || entry.ty is Class {
                None
            } else {
                err
            },
            None => err,
        },
        SExpr::Get { .. } => None,
        _ => err,
    }
}

/// The value of a string of decimal digits.
pub open spec fn digits_value(s: Seq<char>) -> nat
    decreases s.len(),
{
    if s.len() == 0 {
        0
    } else {
        digits_value(s.drop_last()) * 10 + ((s.last() as u32) - 0x30) as nat
    }
}

/// Whether a number token has a fractional part.
pub open spec fn has_dot(s: Seq<char>) -> bool {
    s.contains('.')
}

/// Check of the elements of a list literal: each must be compatible with the type of
/// the one before (the first with `any`); gives the type of the last.
pub open spec fn list_type_check(
    ctx: Ctx,
    items: Seq<SExpression>,
    list_span: Span,
    ty: SType,
    i: int,
) -> Result<SType, SParseError>
    decreases items.len() - i,
{
    if i < 0 || i >= items.len() {
        Ok(ty)
    } else if !compatible(ty, items[i].ty) {
        Err(
            SParseError::IncompatibleTypes(
                items[i].span.source_id,
                list_span,
                ty,
                items[i].span,
                items[i].ty,
            ),
        )
    } else {
        list_type_check(ctx, items, list_span, items[i].ty, i + 1)
    }
}

/// Check of call arguments against the constructor's parameters, pairwise as far as
/// both go.
pub open spec fn ctor_check(
    callee_span: Span,
    params: Seq<STypeExpr>,
    args: Seq<SExpression>,
    i: int,
) -> Option<SParseError>
    decreases params.len() - i,
{
    if i < 0 || i >= params.len() || i >= args.len() {
        None
    } else if !compatible(params[i].ty, args[i].ty) {
        Some(
            SParseError::IncompatibleTypes(
                callee_span.source_id,
                params[i].span,
                params[i].ty,
                args[i].span,
                args[i].ty,
            ),
        )
    } else {
        ctor_check(callee_span, params, args, i + 1)
    }
}

/// The type of a call: an instance for a class (whose constructor's parameters must
/// fit the arguments), the return type for a function, the callee's type otherwise.
pub open spec fn p_call_type(ctx: Ctx, st: PState, callee: SExpression, args: Seq<SExpression>) -> Outcome<SType> {
    match callee.ty {
        SType::Class(class_name) => match lookup_scopes(st.scopes, class_name) {
            None => Outcome::Halt,
            Some(entry) => match entry.sym {
                SSym::Class { methods, .. } => {
                    let ctor = seq!['c', 'o', 'n', 's', 't', 'r', 'u', 'c', 't', 'o', 'r'];
                    if methods.contains_key(ctor) && methods[ctor].ty is Function {
                        match ctor_check(callee.span, methods[ctor].ty->params, args, 0) {
                            Some(e) => Outcome::Fail(e),
                            None => Outcome::Done(SType::Instance(class_name), st),
                        }
                    } else {
                        Outcome::Done(SType::Instance(class_name), st)
                    }
                },
                _ => Outcome::Halt,
            },
        },
        SType::Function { ret_ty, .. } => Outcome::Done(ret_ty.ty, st),
        _ => Outcome::Done(callee.ty, st),
    }
}

// ---------------------------------------------------------------------------
// Binary operator levels: 0 `or`, 1 `and`, 2 equality, 3 comparison, 4 terms, 5 factors.
pub open spec fn level_ops(level: int) -> Seq<TokenKind> {
    if level == 0 {
        seq![TokenKind::Or]
    } else if level == 1 {
        seq![TokenKind::And]
    } else if level == 2 {
        seq![TokenKind::BangEqual, TokenKind::EqualEqual]
    } else if level == 3 {
        seq![TokenKind::Greater, TokenKind::GreaterEqual, TokenKind::Less, TokenKind::LessEqual]
    } else if level == 4 {
        seq![TokenKind::Minus, TokenKind::Plus]
    } else {
        seq![TokenKind::Slash, TokenKind::Star]
    }
}

/// The expression that an operator at a level builds: logical for `or` and `and`,
/// binary otherwise; its span starts at the operator for the first four levels
/// and at the left operand for terms and factors.
pub open spec fn level_node(level: int, lhs: SExpression, op: Operator, rhs: SExpression, ty: SType) -> SExpression {
    SExpression {
        span: if level < 4 {
            span2(op.span, rhs.span)
        } else {
            span2(lhs.span, rhs.span)
        },
        ty,
        expr: if level < 2 {
            SExpr::Logical { lhs: Box::new(lhs), op, rhs: Box::new(rhs) }
        } else {
            SExpr::Binary { lhs: Box::new(lhs), op, rhs: Box::new(rhs) }
        },
    }
}

// ---------------------------------------------------------------------------
// Expressions
pub open spec fn p_expr(ctx: Ctx, st: PState) -> Outcome<SExpression>
    decreases ctx.toks.len() - st.cursor, 70int,
{
    p_assignment(ctx, st)
}

pub open spec fn p_assignment(ctx: Ctx, st: PState) -> Outcome<SExpression>
    decreases ctx.toks.len() - st.cursor, 69int,
{
    match p_binary(ctx, st, 0) {
        Outcome::Done(expr, s1) => {
            let (is_eq, s2) = p_at(ctx, s1, TokenKind::Equal);
            if !is_eq {
                Outcome::Done(expr, s2)
            } else {
                match p_bump(ctx, s2) {
                    Outcome::Done(eq_tok, s3) => if !progress(ctx, st, s3) {
                        Outcome::Halt
                    } else {
                        match p_assignment(ctx, s3) {
                            Outcome::Done(rhs, s4) => p_assign_target(ctx, s4, expr, eq_tok.span, rhs),
                            o => lift(o),
                        }
                    },
                    o => lift(o),
                }
            }
        },
        o => o,
    }
}

/// The assignment of `rhs` to the target `expr`.
pub open spec fn p_assign_target(ctx: Ctx, st: PState, expr: SExpression, eq_span: Span, rhs: SExpression) -> Outcome<SExpression> {
    match expr.expr {
        SExpr::Variable(name) => match lookup_scopes(st.scopes, name) {
            Some(entry) => if compatible(entry.ty, rhs.ty) {
                Outcome::Done(
                    SExpression {
                        ty: rhs.ty,
                        expr: SExpr::Assign {
                            name: Spanned { item: name, span: expr.span },
                            rhs: Box::new(rhs),
                        },
                        span: expr.span,
                    },
                    with_scopes(
                        st,
                        update_scopes(st.scopes, name, SSymbol { ty: rhs.ty, ..entry }),
                    ),
                )
            } else {
                Outcome::Fail(
                    SParseError::IncompatibleTypes(ctx.id, expr.span, entry.ty, rhs.span, rhs.ty),
                )
            },
            None => Outcome::Fail(SParseError::UndeclaredVariable(ctx.id, expr.span, name)),
        },
        SExpr::Get { object, name } => Outcome::Done(
            SExpression {
                span: span2(expr.span, rhs.span),
                expr: SExpr::SetProperty { object, name, rhs: Box::new(rhs) },
                ty: SType::Null,
            },
            st,
        ),
        SExpr::IndexGet { lhs, index } => Outcome::Done(
            SExpression {
                span: span2(expr.span, rhs.span),
                expr: SExpr::IndexSet { lhs, index, rhs: Box::new(rhs) },
                ty: SType::Null,
            },
            st,
        ),
        _ => Outcome::Fail(SParseError::InvalidAssignmentTarget(ctx.id, eq_span)),
    }
}

/// An operand of `level`, then any number of operators of that level with their
/// right operands, left associative.
pub open spec fn p_binary(ctx: Ctx, st: PState, level: int) -> Outcome<SExpression>
    decreases ctx.toks.len() - st.cursor, 68 - 2 * level,
{
    if level < 0 || level > 5 {
        Outcome::Halt
    } else {
        match p_operand(ctx, st, level) {
            Outcome::Done(lhs, s1) => if !weakly(ctx, st, s1) {
                Outcome::Halt
            } else {
                p_binary_rest(ctx, s1, level, lhs)
            },
            o => o,
        }
    }
}

/// The operand of a level: the next level, or a unary expression below factors.
pub open spec fn p_operand(ctx: Ctx, st: PState, level: int) -> Outcome<SExpression>
    decreases ctx.toks.len() - st.cursor, 68 - 2 * level - 1,
{
    if level < 0 || level > 5 {
        Outcome::Halt
    } else if level == 5 {
        p_unary(ctx, st)
    } else {
        p_binary(ctx, st, level + 1)
    }
}

pub open spec fn p_binary_rest(ctx: Ctx, st: PState, level: int, lhs: SExpression) -> Outcome<SExpression>
    decreases ctx.toks.len() - st.cursor, 68 - 2 * level - 1,
{
    if level < 0 || level > 5 {
        Outcome::Halt
    } else {
        let (at_op, s1) = p_at_set(ctx, st, level_ops(level));
        if !at_op {
            Outcome::Done(lhs, s1)
        } else {
            match p_bump(ctx, s1) {
                Outcome::Done(op_tok, s2) => if !progress(ctx, st, s2) {
                    Outcome::Halt
                } else {
                    match p_operand(ctx, s2, level) {
                        Outcome::Done(rhs, s3) => if !progress(ctx, st, s3) || op_of_kind(op_tok.kind) is None {
                            Outcome::Halt
                        } else {
                            let op = Operator { op: op_of_kind(op_tok.kind)->0, span: op_tok.span };
                            match p_result_type(ctx, lhs, op, rhs) {
                                Ok(ty) => p_binary_rest(ctx, s3, level, level_node(level, lhs, op, rhs, ty)),
                                Err(e) => Outcome::Fail(e),
                            }
                        },
                        o => o,
                    }
                },
                o => lift(o),
            }
        }
    }
}

pub open spec fn p_unary(ctx: Ctx, st: PState) -> Outcome<SExpression>
    decreases ctx.toks.len() - st.cursor, 50int,
{
    let (at_op, s1) = p_at_set(ctx, st, seq![TokenKind::Bang, TokenKind::Minus]);
    if !at_op {
        if !weakly(ctx, st, s1) {
            Outcome::Halt
        } else {
            p_index(ctx, s1)
        }
    } else {
        match p_bump(ctx, s1) {
            Outcome::Done(op_tok, s2) => if !progress(ctx, st, s2) || op_of_kind(op_tok.kind) is None {
                Outcome::Halt
            } else {
                let op = Operator { op: op_of_kind(op_tok.kind)->0, span: op_tok.span };
                match p_unary(ctx, s2) {
                    Outcome::Done(rhs, s3) => if op.op == Op::Not && !(rhs.ty is Bool) {
                        Outcome::Fail(SParseError::UnsupportedUnaryOperation(ctx.id, op.span, rhs.span, rhs.ty))
                    } else if op.op == Op::Sub && !(rhs.ty is Float) && !(rhs.ty is Int) {
                        Outcome::Fail(SParseError::UnsupportedUnaryOperation(ctx.id, op.span, rhs.span, rhs.ty))
                    } else {
                        Outcome::Done(
                            SExpression {
                                span: span2(op.span, rhs.span),
                                ty: rhs.ty,
                                expr: SExpr::Unary { op, rhs: Box::new(rhs) },
                            },
                            s3,
                        )
                    },
                    o => o,
                }
            },
            o => lift(o),
        }
    }
}

pub open spec fn p_index(ctx: Ctx, st: PState) -> Outcome<SExpression>
    decreases ctx.toks.len() - st.cursor, 49int,
{
    match p_call(ctx, st) {
        Outcome::Done(expr, s1) => {
            let (at_br, s2) = p_at(ctx, s1, TokenKind::LeftBracket);
            if !at_br {
                Outcome::Done(expr, s2)
            } else {
                match p_bump(ctx, s2) {
                    Outcome::Done(_, s3) => if !progress(ctx, st, s3) {
                        Outcome::Halt
                    } else {
                        match p_expr(ctx, s3) {
                            Outcome::Done(index, s4) => match p_expect(ctx, s4, TokenKind::RightBracket) {
                                Outcome::Done(end_tok, s5) => Outcome::Done(
                                    SExpression {
                                        span: span2(expr.span, end_tok.span),
                                        ty: SType::Any,
                                        expr: SExpr::IndexGet {
                                            lhs: Box::new(expr),
                                            index: Box::new(index),
                                        },
                                    },
                                    s5,
                                ),
                                o => lift(o),
                            },
                            o => o,
                        }
                    },
                    o => lift(o),
                }
            }
        },
        o => o,
    }
}

pub open spec fn p_call(ctx: Ctx, st: PState) -> Outcome<SExpression>
    decreases ctx.toks.len() - st.cursor, 48int,
{
    match p_primary(ctx, st) {
        Outcome::Done(expr, s1) => if !progress(ctx, st, s1) {
            Outcome::Halt
        } else {
            p_call_rest(ctx, s1, expr)
        },
        o => o,
    }
}

/// Calls and property accesses that follow an expression.
pub open spec fn p_call_rest(ctx: Ctx, st: PState, expr: SExpression) -> Outcome<SExpression>
    decreases ctx.toks.len() - st.cursor, 47int,
{
    let (at_paren, s1) = p_at(ctx, st, TokenKind::RightParen);
    if at_paren {
        match p_bump(ctx, s1) {
            Outcome::Done(_, s2) => if !progress(ctx, st, s2) {
                Outcome::Halt
            } else {
                match p_finish_call(ctx, s2, expr) {
                    Outcome::Done(e2, s3) => if !progress(ctx, st, s3) {
                        Outcome::Halt
                    } else {
                        p_call_rest(ctx, s3, e2)
                    },
                    o => o,
                }
            },
            o => lift(o),
        }
    } else {
        let (at_dot, s2) = p_at(ctx, s1, TokenKind::Dot);
        if at_dot {
            match p_bump(ctx, s2) {
                Outcome::Done(_, s3) => match p_expect(ctx, s3, TokenKind::Ident) {
                    Outcome::Done(name_tok, s4) => if !(expr.ty is Any || expr.ty is Instance || expr.ty is Class) {
                        Outcome::Fail(SParseError::OnlyInstancesAndClassesHaveProperties(ctx.id, expr.span, expr.ty))
                    } else if !progress(ctx, st, s4) {
                        Outcome::Halt
                    } else {
                        p_call_rest(
                            ctx,
                            s4,
                            SExpression {
                                span: span2(expr.span, name_tok.span),
                                ty: SType::Any,
                                expr: SExpr::Get {
                                    name: Spanned { item: name_tok.text, span: name_tok.span },
                                    object: Box::new(expr),
                                },
                            },
                        )
                    },
                    o => lift(o),
                },
                o => lift(o),
            }
        } else {
            Outcome::Done(expr, s2)
        }
    }
}

/// The arguments and closing parenthesis of a call, and the type of the call.
pub open spec fn p_finish_call(ctx: Ctx, st: PState, callee: SExpression) -> Outcome<SExpression>
    decreases ctx.toks.len() - st.cursor, 73int,
{
    let (at_close, s1) = p_at(ctx, st, TokenKind::LeftParen);
    let args_o: Outcome<Seq<SExpression>> = if at_close {
        Outcome::Done(seq![], s1)
    } else if !weakly(ctx, st, s1) {
        Outcome::Halt
    } else {
        p_args(ctx, s1)
    };
    match args_o {
        Outcome::Done(args, s2) => match p_expect(ctx, s2, TokenKind::LeftParen) {
            Outcome::Done(paren_tok, s3) => match p_is_callable(ctx, s3, callee) {
                Some(e) => Outcome::Fail(e),
                None => match p_call_type(ctx, s3, callee, args) {
                    Outcome::Done(ty, s4) => Outcome::Done(
                        SExpression {
                            span: span2(callee.span, paren_tok.span),
                            ty,
                            expr: SExpr::Call {
                                callee: Box::new(callee),
                                paren: paren_tok.span,
                                args,
                            },
                        },
                        s4,
                    ),
                    o => lift(o),
                },
            },
            o => lift(o),
        },
        o => lift(o),
    }
}

/// A comma separated list of expressions.
pub open spec fn p_args(ctx: Ctx, st: PState) -> Outcome<Seq<SExpression>>
    decreases ctx.toks.len() - st.cursor, 72int,
{
    match p_expr(ctx, st) {
        Outcome::Done(e, s1) => {
            let (at_comma, s2) = p_at(ctx, s1, TokenKind::Comma);
            if !at_comma {
                Outcome::Done(seq![e], s2)
            } else {
                match p_bump(ctx, s2) {
                    Outcome::Done(_, s3) => if !progress(ctx, st, s3) {
                        Outcome::Halt
                    } else {
                        match p_args(ctx, s3) {
                            Outcome::Done(rest, s4) => Outcome::Done(seq![e] + rest, s4),
                            o => o,
                        }
                    },
                    o => lift(o),
                }
            }
        },
        o => lift(o),
    }
}

/// A literal, a variable, a parenthesized expression or a list.
pub open spec fn p_primary(ctx: Ctx, st: PState) -> Outcome<SExpression>
    decreases ctx.toks.len() - st.cursor, 40int,
{
    match p_bump(ctx, st) {
        Outcome::Done(tok, s1) => {
            let span = tok.span;
            match tok.kind {
                TokenKind::False => Outcome::Done(
                    SExpression { expr: SExpr::Bool(false), span, ty: SType::Bool },
                    s1,
                ),
                TokenKind::True => Outcome::Done(
                    SExpression { expr: SExpr::Bool(true), span, ty: SType::Bool },
                    s1,
                ),
                TokenKind::Null => Outcome::Done(
                    SExpression { expr: SExpr::Null, span, ty: SType::Null },
                    s1,
                ),
                TokenKind::This => Outcome::Done(
                    SExpression { expr: SExpr::This, span, ty: SType::Any },
                    s1,
                ),
                TokenKind::RightParen => if !progress(ctx, st, s1) {
                    Outcome::Halt
                } else {
                    match p_expr(ctx, s1) {
                        Outcome::Done(inner, s2) => match p_expect(ctx, s2, TokenKind::LeftParen) {
                            Outcome::Done(close, s3) => Outcome::Done(
                                SExpression {
                                    ty: inner.ty,
                                    expr: SExpr::Grouping(Box::new(inner)),
                                    span: span2(span, close.span),
                                },
                                s3,
                            ),
                            o => lift(o),
                        },
                        o => o,
                    }
                },
                TokenKind::Ident => match lookup_scopes(s1.scopes, tok.text) {
                    Some(symbol) => Outcome::Done(
                        SExpression { expr: SExpr::Variable(tok.text), span, ty: symbol.ty },
                        s1,
                    ),
                    None => Outcome::Fail(SParseError::UndeclaredVariable(ctx.id, span, tok.text)),
                },
                TokenKind::Number => if has_dot(tok.text) {
                    Outcome::Done(
                        SExpression { expr: SExpr::Float(tok.text), span, ty: SType::Float },
                        s1,
                    )
                } else if digits_value(tok.text) > i64::MAX {
                    Outcome::Halt
                } else {
                    Outcome::Done(
                        SExpression {
                            expr: SExpr::Int(digits_value(tok.text) as i64),
                            span,
                            ty: SType::Int,
                        },
                        s1,
                    )
                },
                TokenKind::String => Outcome::Done(
                    SExpression {
                        expr: SExpr::Str(tok.text.subrange(1, tok.text.len() - 1)),
                        span,
                        ty: SType::Str,
                    },
                    s1,
                ),
                TokenKind::LeftBracket => if !progress(ctx, st, s1) {
                    Outcome::Halt
                } else {
                    p_list(ctx, s1, span)
                },
                _ => Outcome::Fail(SParseError::ExpectedExpression(ctx.id, span)),
            }
        },
        o => lift(o),
    }
}

/// The rest of a list literal after `[`: `]`, items separated by commas, or the
/// shorthand `[value; count]`.
pub open spec fn p_list(ctx: Ctx, st: PState, start: Span) -> Outcome<SExpression>
    decreases ctx.toks.len() - st.cursor, 75int,
{
    let (at_close, s1) = p_at(ctx, st, TokenKind::RightBracket);
    let items_o: Outcome<(Seq<SExpression>, Option<SExpression>)> = if at_close {
        Outcome::Done((seq![], None), s1)
    } else if !weakly(ctx, st, s1) {
        Outcome::Halt
    } else {
        p_list_items(ctx, s1, start)
    };
    match items_o {
        Outcome::Done((_, Some(shorthand)), s2) => Outcome::Done(shorthand, s2),
        Outcome::Done((exprs, None), s2) => match p_expect(ctx, s2, TokenKind::RightBracket) {
            Outcome::Done(end_tok, s3) => {
                let list_span = span2(start, end_tok.span);
                match list_type_check(ctx, exprs, list_span, SType::Any, 0) {
                    Ok(ty) => Outcome::Done(
                        SExpression {
                            expr: SExpr::List(exprs),
                            span: list_span,
                            ty: SType::List(Box::new(STypeExpr { ty, span: list_span })),
                        },
                        s3,
                    ),
                    Err(e) => Outcome::Fail(e),
                }
            },
            o => lift(o),
        },
        o => lift(o),
    }
}

/// Items of a list literal; a `;` after the first item of a round makes the whole
/// literal a shorthand, which is returned complete.
pub open spec fn p_list_items(ctx: Ctx, st: PState, start: Span) -> Outcome<(Seq<SExpression>, Option<SExpression>)>
    decreases ctx.toks.len() - st.cursor, 74int,
{
    match p_expr(ctx, st) {
        Outcome::Done(e, s1) => {
            let (at_semi, s2) = p_at(ctx, s1, TokenKind::Semicolon);
            if at_semi {
                match p_bump(ctx, s2) {
                    Outcome::Done(_, s3) => if !progress(ctx, st, s3) {
                        Outcome::Halt
                    } else {
                        match p_expr(ctx, s3) {
                            Outcome::Done(count, s4) => if !compatible(count.ty, SType::Int) {
                                Outcome::Fail(SParseError::ListShorthandCountMustBeInt(count.span.source_id, count.span))
                            } else {
                                match p_expect(ctx, s4, TokenKind::RightBracket) {
                                    Outcome::Done(end_tok, s5) => Outcome::Done(
                                        (
                                            seq![],
                                            Some(
                                                SExpression {
                                                    ty: SType::List(Box::new(STypeExpr { ty: e.ty, span: e.span })),
                                                    expr: SExpr::ListShorthand {
                                                        value: Box::new(e),
                                                        count: Box::new(count),
                                                    },
                                                    span: span2(start, end_tok.span),
                                                },
                                            ),
                                        ),
                                        s5,
                                    ),
                                    o => lift(o),
                                }
                            },
                            o => lift(o),
                        }
                    },
                    o => lift(o),
                }
            } else {
                let (at_comma, s3) = p_at(ctx, s2, TokenKind::Comma);
                if !at_comma {
                    Outcome::Done((seq![e], None), s3)
                } else {
                    match p_bump(ctx, s3) {
                        Outcome::Done(_, s4) => if !progress(ctx, st, s4) {
                            Outcome::Halt
                        } else {
                            match p_list_items(ctx, s4, start) {
                                Outcome::Done((rest, None), s5) => Outcome::Done((seq![e] + rest, None), s5),
                                o => o,
                            }
                        },
                        o => lift(o),
                    }
                }
            }
        },
        o => lift(o),
    }
}


// ---------------------------------------------------------------------------
// Types and bindings
/// A type annotation.
pub open spec fn p_ty(ctx: Ctx, st: PState) -> Outcome<STypeExpr>
    decreases ctx.toks.len() - st.cursor, 50int,
{
    match p_bump(ctx, st) {
        Outcome::Done(tok, s1) => {
            let span = tok.span;
            match tok.kind {
                TokenKind::TypeInt => Outcome::Done(STypeExpr { ty: SType::Int, span }, s1),
                TokenKind::TypeFloat => Outcome::Done(STypeExpr { ty: SType::Float, span }, s1),
                TokenKind::TypeBool => Outcome::Done(STypeExpr { ty: SType::Bool, span }, s1),
                TokenKind::TypeString => Outcome::Done(STypeExpr { ty: SType::Str, span }, s1),
                TokenKind::Null => Outcome::Done(STypeExpr { ty: SType::Null, span }, s1),
                TokenKind::TypeAny => Outcome::Done(STypeExpr { ty: SType::Any, span }, s1),
                TokenKind::Ident => Outcome::Done(
                    STypeExpr { ty: SType::Instance(tok.text), span },
                    s1,
                ),
                TokenKind::LeftBracket => if !progress(ctx, st, s1) {
                    Outcome::Halt
                } else {
                    match p_ty(ctx, s1) {
                        Outcome::Done(inner, s2) => match p_expect(ctx, s2, TokenKind::RightBracket) {
                            Outcome::Done(end_tok, s3) => Outcome::Done(
                                STypeExpr {
                                    ty: SType::List(Box::new(inner)),
                                    span: span2(span, end_tok.span),
                                },
                                s3,
                            ),
                            o => lift(o),
                        },
                        o => o,
                    }
                },
                TokenKind::RightParen => {
                    let (at_close, s2) = p_at(ctx, s1, TokenKind::LeftParen);
                    let params_o: Outcome<Seq<STypeExpr>> = if at_close {
                        Outcome::Done(seq![], s2)
                    } else if !progress(ctx, st, s2) {
                        Outcome::Halt
                    } else {
                        p_ty_params(ctx, s2)
                    };
                    match params_o {
                        Outcome::Done(params, s3) => match p_expect(ctx, s3, TokenKind::LeftParen) {
                            Outcome::Done(_, s4) => match p_expect(ctx, s4, TokenKind::Arrow) {
                                Outcome::Done(_, s5) => if !progress(ctx, st, s5) {
                                    Outcome::Halt
                                } else {
                                    match p_ty(ctx, s5) {
                                        Outcome::Done(ret, s6) => Outcome::Done(
                                            STypeExpr {
                                                span: span2(span, ret.span),
                                                ty: SType::Function {
                                                    params,
                                                    ret_ty: Box::new(ret),
                                                },
                                            },
                                            s6,
                                        ),
                                        o => o,
                                    }
                                },
                                o => lift(o),
                            },
                            o => lift(o),
                        },
                        o => lift(o),
                    }
                },
                _ => Outcome::Fail(SParseError::UnknownType(ctx.id, span)),
            }
        },
        o => lift(o),
    }
}

/// A comma separated list of types.
pub open spec fn p_ty_params(ctx: Ctx, st: PState) -> Outcome<Seq<STypeExpr>>
    decreases ctx.toks.len() - st.cursor, 51int,
{
    match p_ty(ctx, st) {
        Outcome::Done(t, s1) => {
            let (at_comma, s2) = p_at(ctx, s1, TokenKind::Comma);
            if !at_comma {
                Outcome::Done(seq![t], s2)
            } else {
                match p_bump(ctx, s2) {
                    Outcome::Done(_, s3) => if !progress(ctx, st, s3) {
                        Outcome::Halt
                    } else {
                        match p_ty_params(ctx, s3) {
                            Outcome::Done(rest, s4) => Outcome::Done(seq![t] + rest, s4),
                            o => o,
                        }
                    },
                    o => lift(o),
                }
            }
        },
        o => lift(o),
    }
}

/// A name to declare, with an optional `: type` (else `any`); the name must not be
/// visible already.
pub open spec fn p_binding(ctx: Ctx, st: PState) -> Outcome<SBinding> {
    match p_expect(ctx, st, TokenKind::Ident) {
        Outcome::Done(ident, s1) => match lookup_scopes(s1.scopes, ident.text) {
            Some(sym) => Outcome::Fail(
                SParseError::CannotRedeclareSymbol(ctx.id, sym.name.item, ident.span, sym.name.span),
            ),
            None => {
                let name = Spanned { item: ident.text, span: ident.span };
                let (at_colon, s2) = p_at(ctx, s1, TokenKind::Colon);
                if !at_colon {
                    Outcome::Done(SBinding { name, ty: SType::Any }, s2)
                } else {
                    match p_bump(ctx, s2) {
                        Outcome::Done(_, s3) => match p_ty(ctx, s3) {
                            Outcome::Done(te, s4) => Outcome::Done(SBinding { name, ty: te.ty }, s4),
                            o => lift(o),
                        },
                        o => lift(o),
                    }
                }
            },
        },
        o => lift(o),
    }
}

/// A comma separated list of bindings.
pub open spec fn p_params(ctx: Ctx, st: PState) -> Outcome<Seq<SBinding>>
    decreases ctx.toks.len() - st.cursor,
{
    match p_binding(ctx, st) {
        Outcome::Done(b, s1) => {
            let (at_comma, s2) = p_at(ctx, s1, TokenKind::Comma);
            if !at_comma {
                Outcome::Done(seq![b], s2)
            } else {
                match p_bump(ctx, s2) {
                    Outcome::Done(_, s3) => if !progress(ctx, st, s3) {
                        Outcome::Halt
                    } else {
                        match p_params(ctx, s3) {
                            Outcome::Done(rest, s4) => Outcome::Done(seq![b] + rest, s4),
                            o => o,
                        }
                    },
                    o => lift(o),
                }
            }
        },
        o => lift(o),
    }
}

/// The optional `= value` of a declaration of `b`: the declared type and value. The
/// value's type must be compatible with the annotation and becomes the declared type.
pub open spec fn p_init(ctx: Ctx, st: PState, b: SBinding) -> Outcome<(SType, Option<SExpression>)> {
    let (at_eq, s1) = p_at(ctx, st, TokenKind::Equal);
    if !at_eq {
        Outcome::Done((b.ty, None), s1)
    } else {
        match p_bump(ctx, s1) {
            Outcome::Done(_, s2) => match p_expr(ctx, s2) {
                Outcome::Done(val, s3) => if !compatible(b.ty, val.ty) {
                    Outcome::Fail(
                        SParseError::IncompatibleTypes(ctx.id, b.name.span, b.ty, val.span, val.ty),
                    )
                } else {
                    Outcome::Done((val.ty, Some(val)), s3)
                },
                o => lift(o),
            },
            o => lift(o),
        }
    }
}

/// The symbol of a declared variable.
pub open spec fn variable_symbol(name: Spanned<Seq<char>>, ty: SType) -> SSymbol {
    SSymbol { name, sym: SSym::Variable, ty }
}

// ---------------------------------------------------------------------------
// Declarations and statements
/// `let binding (= value)? ;`
pub open spec fn p_var_decl(ctx: Ctx, st: PState) -> Outcome<SStatement> {
    match p_bump(ctx, st) {
        Outcome::Done(let_tok, s1) => match p_binding(ctx, s1) {
            Outcome::Done(b, s2) => match p_init(ctx, s2, b) {
                Outcome::Done((ty, expr), s3) => {
                    let s4 = with_scopes(
                        s3,
                        insert_scopes(s3.scopes, b.name.item, variable_symbol(b.name, ty)),
                    );
                    match p_expect(ctx, s4, TokenKind::Semicolon) {
                        Outcome::Done(semi, s5) => Outcome::Done(
                            SStatement {
                                span: span2(let_tok.span, semi.span),
                                stmt: SStmt::Variable { name: b, expr },
                            },
                            s5,
                        ),
                        o => lift(o),
                    }
                },
                o => lift(o),
            },
            o => lift(o),
        },
        o => lift(o),
    }
}

/// The members of an enum: each is a static int, numbered from 0 in order.
pub open spec fn p_enum_items(
    ctx: Ctx,
    st: PState,
    statics: Seq<SStatement>,
    syms: Map<Seq<char>, SSymbol>,
) -> Outcome<(Seq<SStatement>, Map<Seq<char>, SSymbol>)>
    decreases ctx.toks.len() - st.cursor,
{
    match p_expect(ctx, st, TokenKind::Ident) {
        Outcome::Done(k, s1) => {
            let name = Spanned { item: k.text, span: k.span };
            let stmt = SStatement {
                stmt: SStmt::Variable {
                    name: SBinding { name, ty: SType::Int },
                    expr: Some(
                        SExpression {
                            expr: SExpr::Int(statics.len() as i64),
                            span: garbage_span(),
                            ty: SType::Int,
                        },
                    ),
                },
                span: k.span,
            };
            let syms2 = syms.insert(k.text, variable_symbol(name, SType::Int));
            let statics2 = statics.push(stmt);
            let (at_comma, s2) = p_at(ctx, s1, TokenKind::Comma);
            if !at_comma {
                Outcome::Done((statics2, syms2), s2)
            } else {
                match p_bump(ctx, s2) {
                    Outcome::Done(_, s3) => if !progress(ctx, st, s3) {
                        Outcome::Halt
                    } else {
                        p_enum_items(ctx, s3, statics2, syms2)
                    },
                    o => lift(o),
                }
            }
        },
        o => lift(o),
    }
}

/// `enum Name { A, B, ... }`: a class whose statics are the members.
pub open spec fn p_enum_decl(ctx: Ctx, st: PState) -> Outcome<SStatement> {
    match p_expect(ctx, st, TokenKind::Enum) {
        Outcome::Done(enum_tok, s1) => match p_expect(ctx, s1, TokenKind::Ident) {
            Outcome::Done(name_tok, s2) => match p_expect(ctx, s2, TokenKind::RightBrace) {
                Outcome::Done(_, s3) => {
                    let (at_close, s4) = p_at(ctx, s3, TokenKind::LeftBrace);
                    let items_o = if at_close {
                        Outcome::Done((Seq::<SStatement>::empty(), Map::<Seq<char>, SSymbol>::empty()), s4)
                    } else {
                        p_enum_items(ctx, s4, seq![], Map::empty())
                    };
                    match items_o {
                        Outcome::Done((statics, ssyms), s5) => {
                            let name = Spanned { item: name_tok.text, span: name_tok.span };
                            let sym = SSymbol {
                                name,
                                ty: SType::Class(name_tok.text),
                                sym: SSym::Class { methods: Map::empty(), statics: ssyms },
                            };
                            let s6 = with_scopes(s5, insert_scopes(s5.scopes, name_tok.text, sym));
                            match p_expect(ctx, s6, TokenKind::LeftBrace) {
                                Outcome::Done(rb, s7) => Outcome::Done(
                                    SStatement {
                                        span: span2(enum_tok.span, rb.span),
                                        stmt: SStmt::Class(SClass { name, methods: seq![], statics }),
                                    },
                                    s7,
                                ),
                                o => lift(o),
                            }
                        },
                        o => lift(o),
                    }
                },
                o => lift(o),
            },
            o => lift(o),
        },
        o => lift(o),
    }
}

/// What the body of a class declares so far.
pub struct ClassAcc {
    pub methods: Seq<SStatement>,
    pub msyms: Map<Seq<char>, SSymbol>,
    pub statics: Seq<SStatement>,
    pub ssyms: Map<Seq<char>, SSymbol>,
}

pub open spec fn empty_class_acc() -> ClassAcc {
    ClassAcc { methods: seq![], msyms: Map::empty(), statics: seq![], ssyms: Map::empty() }
}

/// `static binding (= value)? ;` in a class body.
pub open spec fn p_static_item(ctx: Ctx, st: PState, acc: ClassAcc) -> Outcome<ClassAcc> {
    match p_bump(ctx, st) {
        Outcome::Done(static_tok, s1) => match p_binding(ctx, s1) {
            Outcome::Done(b, s2) => match p_init(ctx, s2, b) {
                Outcome::Done((ty, expr), s3) => match p_expect(ctx, s3, TokenKind::Semicolon) {
                    Outcome::Done(semi, s4) => Outcome::Done(
                        ClassAcc {
                            statics: acc.statics.push(
                                SStatement {
                                    span: span2(static_tok.span, semi.span),
                                    stmt: SStmt::Variable { name: b, expr },
                                },
                            ),
                            ssyms: acc.ssyms.insert(b.name.item, variable_symbol(b.name, ty)),
                            ..acc
                        },
                        s4,
                    ),
                    o => lift(o),
                },
                o => lift(o),
            },
            o => lift(o),
        },
        o => lift(o),
    }
}

/// The symbols after `params` are declared in the innermost scope, in order.
pub open spec fn insert_params(scopes: Scopes, params: Seq<SBinding>) -> Scopes
    decreases params.len(),
{
    if params.len() == 0 {
        scopes
    } else {
        insert_scopes(
            insert_params(scopes, params.drop_last()),
            params.last().name.item,
            variable_symbol(params.last().name, params.last().ty),
        )
    }
}

/// The scopes after leaving the innermost one.
pub open spec fn pop_scope(scopes: Scopes) -> Scopes {
    if scopes.len() > 0 {
        scopes.drop_last()
    } else {
        scopes
    }
}

/// The check of a function body against the declared return type `ret`: a final
/// `ret value` must be compatible with it (for a free function, its symbol's return
/// type then becomes the type of that value), and without a final `ret` only `any`
/// or `null` may be declared.
pub open spec fn p_check_return(
    ctx: Ctx,
    st: PState,
    body: SStatement,
    ret: STypeExpr,
    from_class: bool,
    name: Seq<char>,
) -> Outcome<()> {
    match body.stmt {
        SStmt::Block(stmts) => if stmts.len() > 0 && stmts.last().stmt is Return {
            match stmts.last().stmt->Return_0 {
                Some(ret_expr) => if !compatible(ret_expr.ty, ret.ty) {
                    Outcome::Fail(
                        SParseError::IncompatibleTypes(ctx.id, ret.span, ret.ty, ret_expr.span, ret_expr.ty),
                    )
                } else if from_class {
                    Outcome::Done((), st)
                } else {
                    match lookup_scopes(st.scopes, name) {
                        Some(sym) => match sym.ty {
                            SType::Function { params, ret_ty } => Outcome::Done(
                                (),
                                with_scopes(
                                    st,
                                    update_scopes(
                                        st.scopes,
                                        name,
                                        SSymbol {
                                            ty: SType::Function {
                                                params,
                                                ret_ty: Box::new(STypeExpr { span: ret_ty.span, ty: ret_expr.ty }),
                                            },
                                            ..sym
                                        },
                                    ),
                                ),
                            ),
                            _ => Outcome::Halt,
                        },
                        None => Outcome::Halt,
                    }
                },
                None => Outcome::Done((), st),
            }
        } else if !(ret.ty is Any || ret.ty is Null) {
            Outcome::Fail(
                SParseError::FunctionHasIncompatibleReturnType(
                    ctx.id,
                    ret.span,
                    ret.ty,
                    Span { source_id: body.span.source_id, start: body.span.end, end: body.span.end },
                    SType::Null,
                ),
            )
        } else {
            Outcome::Done((), st)
        },
        _ => Outcome::Done((), st),
    }
}

/// The optional `-> type` after a parameter list (`any` when absent).
pub open spec fn p_ret_annotation(ctx: Ctx, st: PState) -> Outcome<STypeExpr> {
    let (at_arrow, s1) = p_at(ctx, st, TokenKind::Arrow);
    if at_arrow {
        match p_bump(ctx, s1) {
            Outcome::Done(_, s2) => p_ty(ctx, s2),
            o => lift(o),
        }
    } else {
        Outcome::Done(STypeExpr { span: garbage_span(), ty: SType::Any }, s1)
    }
}

/// `func name(params) (-> type)? block`, or without `func` as a method of a class.
pub open spec fn p_func_decl(ctx: Ctx, st: PState, from_class: bool) -> Outcome<SStatement>
    decreases ctx.toks.len() - st.cursor, 85int,
{
    let head_o: Outcome<Span> = if from_class {
        Outcome::Done(garbage_span(), st)
    } else {
        match p_expect(ctx, st, TokenKind::Func) {
            Outcome::Done(t, s) => Outcome::Done(t.span, s),
            o => lift(o),
        }
    };
    match head_o {
        Outcome::Done(start0, s1) => match p_expect(ctx, s1, TokenKind::Ident) {
            Outcome::Done(name_tok, s2) => {
                let spanned_name = Spanned { item: name_tok.text, span: name_tok.span };
                let start = if from_class {
                    name_tok.span
                } else {
                    start0
                };
                match p_expect(ctx, s2, TokenKind::RightParen) {
                    Outcome::Done(_, s3) => {
                        let (at_close, s4) = p_at(ctx, s3, TokenKind::LeftParen);
                        let params_o = if at_close {
                            Outcome::Done(Seq::<SBinding>::empty(), s4)
                        } else {
                            p_params(ctx, s4)
                        };
                        match params_o {
                            Outcome::Done(params, s5) => match p_expect(ctx, s5, TokenKind::LeftParen) {
                                Outcome::Done(rp, s6) => match p_ret_annotation(ctx, s6) {
                                    Outcome::Done(return_ty, s7) => p_func_tail(
                                        ctx,
                                        st,
                                        s7,
                                        from_class,
                                        spanned_name,
                                        params,
                                        return_ty,
                                        span2(start, rp.span),
                                    ),
                                    o => lift(o),
                                },
                                o => lift(o),
                            },
                            o => lift(o),
                        }
                    },
                    o => lift(o),
                }
            },
            o => lift(o),
        },
        o => lift(o),
    }
}

/// The rest of a function declaration once its signature has been read (at
/// `s7`, from `st`): the function's symbol (for a free function), a scope with
/// its parameters, the body, and the check of the body against `return_ty`.
pub open spec fn p_func_tail(
    ctx: Ctx,
    st: PState,
    s7: PState,
    from_class: bool,
    name: Spanned<Seq<char>>,
    params: Seq<SBinding>,
    return_ty: STypeExpr,
    span: Span,
) -> Outcome<SStatement>
    decreases ctx.toks.len() - st.cursor, 84int,
{
    let func_type = SType::Function {
        params: params.map_values(|b: SBinding| binding_type_expr(b)),
        ret_ty: Box::new(return_ty),
    };
    let scopes1 = if from_class {
        s7.scopes
    } else {
        insert_scopes(
            s7.scopes,
            name.item,
            SSymbol { name, sym: SSym::Function { arity: params.len() }, ty: func_type },
        )
    };
    let s8 = with_scopes(s7, insert_params(scopes1.push(Map::empty()), params));
    if !progress(ctx, st, s8) {
        Outcome::Halt
    } else {
        match p_block(ctx, s8, true) {
            Outcome::Done(body, s9) => {
                let s10 = with_scopes(s9, pop_scope(s9.scopes));
                match p_check_return(ctx, s10, body, return_ty, from_class, name.item) {
                    Outcome::Done(_, s11) => Outcome::Done(
                        SStatement {
                            stmt: SStmt::Function(
                                SFunction {
                                    ty: STypeExpr { ty: func_type, span: name.span },
                                    name,
                                    params,
                                    body: Box::new(body),
                                },
                            ),
                            span,
                        },
                        s11,
                    ),
                    o => lift(o),
                }
            },
            o => o,
        }
    }
}

/// The items of a class body up to `}` (or the end of the text): static fields and methods.
pub open spec fn p_class_body(ctx: Ctx, st: PState, acc: ClassAcc) -> Outcome<ClassAcc>
    decreases ctx.toks.len() - st.cursor, 95int,
{
    if st.cursor >= ctx.toks.len() {
        Outcome::Done(acc, st)
    } else {
        let (at_close, s1) = p_at(ctx, st, TokenKind::LeftBrace);
        if at_close {
            Outcome::Done(acc, s1)
        } else {
            let (is_static, s2) = p_at(ctx, s1, TokenKind::Static);
            let item_o: Outcome<ClassAcc> = if is_static {
                p_static_item(ctx, s2, acc)
            } else if !weakly(ctx, st, s2) {
                Outcome::Halt
            } else {
                match p_func_decl(ctx, s2, true) {
                    Outcome::Done(stmt, s3) => match stmt.stmt {
                        SStmt::Function(f) => Outcome::Done(
                            ClassAcc {
                                methods: acc.methods.push(stmt),
                                msyms: acc.msyms.insert(
                                    f.name.item,
                                    SSymbol {
                                        name: f.name,
                                        sym: SSym::Function { arity: f.params.len() },
                                        ty: f.ty.ty,
                                    },
                                ),
                                ..acc
                            },
                            s3,
                        ),
                        _ => Outcome::Halt,
                    },
                    o => lift(o),
                }
            };
            match item_o {
                Outcome::Done(acc2, s4) => if !progress(ctx, st, s4) {
                    Outcome::Halt
                } else {
                    p_class_body(ctx, s4, acc2)
                },
                o => o,
            }
        }
    }
}

/// `class Name { items }`
pub open spec fn p_class_decl(ctx: Ctx, st: PState) -> Outcome<SStatement>
    decreases ctx.toks.len() - st.cursor, 89int,
{
    match p_expect(ctx, st, TokenKind::Class) {
        Outcome::Done(class_tok, s1) => match p_expect(ctx, s1, TokenKind::Ident) {
            Outcome::Done(name_tok, s2) => match p_expect(ctx, s2, TokenKind::RightBrace) {
                Outcome::Done(_, s3) => if !progress(ctx, st, s3) {
                    Outcome::Halt
                } else {
                    match p_class_body(ctx, s3, empty_class_acc()) {
                        Outcome::Done(acc, s4) => {
                            let name = Spanned { item: name_tok.text, span: name_tok.span };
                            let sym = SSymbol {
                                name,
                                ty: SType::Class(name_tok.text),
                                sym: SSym::Class { methods: acc.msyms, statics: acc.ssyms },
                            };
                            let s5 = with_scopes(s4, insert_scopes(s4.scopes, name_tok.text, sym));
                            match p_expect(ctx, s5, TokenKind::LeftBrace) {
                                Outcome::Done(rb, s6) => Outcome::Done(
                                    SStatement {
                                        span: span2(class_tok.span, rb.span),
                                        stmt: SStmt::Class(
                                            SClass { name, methods: acc.methods, statics: acc.statics },
                                        ),
                                    },
                                    s6,
                                ),
                                o => lift(o),
                            }
                        },
                        o => lift(o),
                    }
                },
                o => lift(o),
            },
            o => lift(o),
        },
        o => lift(o),
    }
}

/// A declaration: class, function, variable or enum, or else a statement.
pub open spec fn p_decl(ctx: Ctx, st: PState) -> Outcome<SStatement>
    decreases ctx.toks.len() - st.cursor, 90int,
{
    let (is_class, s1) = p_at(ctx, st, TokenKind::Class);
    if is_class {
        if !weakly(ctx, st, s1) {
            Outcome::Halt
        } else {
            p_class_decl(ctx, s1)
        }
    } else {
        let (is_func, s2) = p_at(ctx, s1, TokenKind::Func);
        if is_func {
            if !weakly(ctx, st, s2) {
                Outcome::Halt
            } else {
                p_func_decl(ctx, s2, false)
            }
        } else {
            let (is_let, s3) = p_at(ctx, s2, TokenKind::Let);
            if is_let {
                p_var_decl(ctx, s3)
            } else {
                let (is_enum, s4) = p_at(ctx, s3, TokenKind::Enum);
                if is_enum {
                    p_enum_decl(ctx, s4)
                } else if !weakly(ctx, st, s4) {
                    Outcome::Halt
                } else {
                    p_stmt(ctx, s4)
                }
            }
        }
    }
}

/// A block, `if`, `until`, `ret` or an expression statement.
pub open spec fn p_stmt(ctx: Ctx, st: PState) -> Outcome<SStatement>
    decreases ctx.toks.len() - st.cursor, 80int,
{
    let (is_block, s1) = p_at(ctx, st, TokenKind::RightBrace);
    if is_block {
        if !weakly(ctx, st, s1) {
            Outcome::Halt
        } else {
            p_block(ctx, s1, false)
        }
    } else {
        let (is_if, s2) = p_at(ctx, s1, TokenKind::If);
        if is_if {
            if !weakly(ctx, st, s2) {
                Outcome::Halt
            } else {
                p_if_stmt(ctx, s2)
            }
        } else {
            let (is_until, s3) = p_at(ctx, s2, TokenKind::Until);
            if is_until {
                if !weakly(ctx, st, s3) {
                    Outcome::Halt
                } else {
                    p_until_stmt(ctx, s3)
                }
            } else {
                let (is_ret, s4) = p_at(ctx, s3, TokenKind::Ret);
                if is_ret {
                    p_ret_stmt(ctx, s4)
                } else {
                    p_expr_stmt(ctx, s4)
                }
            }
        }
    }
}

/// `ret value? ;` inside a function; the token that ends it is not checked.
pub open spec fn p_ret_stmt(ctx: Ctx, st: PState) -> Outcome<SStatement> {
    match p_expect(ctx, st, TokenKind::Ret) {
        Outcome::Done(ret_tok, s1) => if s1.scopes.len() == 1 {
            Outcome::Fail(SParseError::CantReturnFromGlobalScope(ctx.id, ret_tok.span))
        } else {
            let (at_semi, s2) = p_at(ctx, s1, TokenKind::Semicolon);
            let expr_o: Outcome<Option<SExpression>> = if at_semi {
                Outcome::Done(None, s2)
            } else {
                match p_expr(ctx, s2) {
                    Outcome::Done(e, s3) => Outcome::Done(Some(e), s3),
                    o => lift(o),
                }
            };
            match expr_o {
                Outcome::Done(e, s4) => match p_bump(ctx, s4) {
                    Outcome::Done(t, s5) => Outcome::Done(
                        SStatement { stmt: SStmt::Return(e), span: span2(ret_tok.span, t.span) },
                        s5,
                    ),
                    o => lift(o),
                },
                o => lift(o),
            }
        },
        o => lift(o),
    }
}

/// `until condition statement`
pub open spec fn p_until_stmt(ctx: Ctx, st: PState) -> Outcome<SStatement>
    decreases ctx.toks.len() - st.cursor, 79int,
{
    match p_expect(ctx, st, TokenKind::Until) {
        Outcome::Done(until_tok, s1) => match p_expr(ctx, s1) {
            Outcome::Done(cond, s2) => if !progress(ctx, st, s2) {
                Outcome::Halt
            } else {
                match p_stmt(ctx, s2) {
                    Outcome::Done(body, s3) => Outcome::Done(
                        SStatement {
                            span: span2(until_tok.span, body.span),
                            stmt: SStmt::Until { cond, body: Box::new(body) },
                        },
                        s3,
                    ),
                    o => o,
                }
            },
            o => lift(o),
        },
        o => lift(o),
    }
}

/// `if condition statement (else statement)?`
pub open spec fn p_if_stmt(ctx: Ctx, st: PState) -> Outcome<SStatement>
    decreases ctx.toks.len() - st.cursor, 79int,
{
    match p_expect(ctx, st, TokenKind::If) {
        Outcome::Done(if_tok, s1) => match p_expr(ctx, s1) {
            Outcome::Done(cond, s2) => if !progress(ctx, st, s2) {
                Outcome::Halt
            } else {
                match p_stmt(ctx, s2) {
                    Outcome::Done(body, s3) => {
                        let (at_else, s4) = p_at(ctx, s3, TokenKind::Else);
                        if !at_else {
                            Outcome::Done(
                                SStatement {
                                    span: span2(if_tok.span, body.span),
                                    stmt: SStmt::If { cond, body: Box::new(body), else_branch: None },
                                },
                                s4,
                            )
                        } else {
                            match p_bump(ctx, s4) {
                                Outcome::Done(_, s5) => if !progress(ctx, st, s5) {
                                    Outcome::Halt
                                } else {
                                    match p_stmt(ctx, s5) {
                                        Outcome::Done(else_stmt, s6) => Outcome::Done(
                                            SStatement {
                                                span: span2(if_tok.span, body.span),
                                                stmt: SStmt::If {
                                                    cond,
                                                    body: Box::new(body),
                                                    else_branch: Some(Box::new(else_stmt)),
                                                },
                                            },
                                            s6,
                                        ),
                                        o => o,
                                    }
                                },
                                o => lift(o),
                            }
                        }
                    },
                    o => o,
                }
            },
            o => lift(o),
        },
        o => lift(o),
    }
}

/// `{ declarations }`; a new scope unless it is a function body, whose scope the
/// function opens.
pub open spec fn p_block(ctx: Ctx, st: PState, from_func: bool) -> Outcome<SStatement>
    decreases ctx.toks.len() - st.cursor, 79int,
{
    match p_expect(ctx, st, TokenKind::RightBrace) {
        Outcome::Done(lb, s1) => if !progress(ctx, st, s1) {
            Outcome::Halt
        } else {
            let s2 = if from_func {
                s1
            } else {
                with_scopes(s1, s1.scopes.push(Map::empty()))
            };
            match p_block_items(ctx, s2) {
                Outcome::Done(stmts, s3) => match p_expect(ctx, s3, TokenKind::LeftBrace) {
                    Outcome::Done(rb, s4) => Outcome::Done(
                        SStatement { stmt: SStmt::Block(stmts), span: span2(lb.span, rb.span) },
                        if from_func {
                            s4
                        } else {
                            with_scopes(s4, pop_scope(s4.scopes))
                        },
                    ),
                    o => lift(o),
                },
                o => lift(o),
            }
        },
        o => lift(o),
    }
}

/// Declarations up to `}` or the end of the text.
pub open spec fn p_block_items(ctx: Ctx, st: PState) -> Outcome<Seq<SStatement>>
    decreases ctx.toks.len() - st.cursor, 95int,
{
    if st.cursor >= ctx.toks.len() {
        Outcome::Done(seq![], st)
    } else {
        let (at_close, s1) = p_at(ctx, st, TokenKind::LeftBrace);
        if at_close {
            Outcome::Done(seq![], s1)
        } else if !weakly(ctx, st, s1) {
            Outcome::Halt
        } else {
            match p_decl(ctx, s1) {
                Outcome::Done(d, s2) => if !progress(ctx, st, s2) {
                    Outcome::Halt
                } else {
                    match p_block_items(ctx, s2) {
                        Outcome::Done(rest, s3) => Outcome::Done(seq![d] + rest, s3),
                        o => o,
                    }
                },
                o => lift(o),
            }
        }
    }
}

/// `expression ;`
pub open spec fn p_expr_stmt(ctx: Ctx, st: PState) -> Outcome<SStatement> {
    match p_expr(ctx, st) {
        Outcome::Done(e, s1) => match p_expect(ctx, s1, TokenKind::Semicolon) {
            Outcome::Done(semi, s2) => Outcome::Done(
                SStatement { span: span2(e.span, semi.span), stmt: SStmt::Expr(e) },
                s2,
            ),
            o => lift(o),
        },
        o => lift(o),
    }
}

/// Declarations up to the end of the tokens (trivia included: trailing trivia is
/// parsed as a declaration and fails).
pub open spec fn p_program(ctx: Ctx, st: PState) -> Outcome<Seq<SStatement>>
    decreases ctx.toks.len() - st.cursor,
{
    if st.cursor >= ctx.toks.len() {
        Outcome::Done(seq![], st)
    } else {
        match p_decl(ctx, st) {
            Outcome::Done(d, s1) => if !progress(ctx, st, s1) {
                Outcome::Halt
            } else {
                match p_program(ctx, s1) {
                    Outcome::Done(rest, s2) => Outcome::Done(seq![d] + rest, s2),
                    o => o,
                }
            },
            o => lift(o),
        }
    }
}

/// A program that parses has read every token of its source.
pub proof fn lemma_program_reads_all(ctx: Ctx, st: PState)
    ensures
        p_program(ctx, st) matches Outcome::Done(_, s) ==> s.cursor >= ctx.toks.len(),
    decreases ctx.toks.len() - st.cursor,
{
    if st.cursor < ctx.toks.len() {
        if let Outcome::Done(d, s1) = p_decl(ctx, st) {
            if progress(ctx, st, s1) {
                lemma_program_reads_all(ctx, s1);
            }
        }
    }
}

/// Declaring parameters adds no scope.
pub proof fn lemma_insert_params_len(scopes: Scopes, params: Seq<SBinding>)
    ensures
        insert_params(scopes, params).len() == scopes.len(),
    decreases params.len(),
{
    if params.len() > 0 {
        lemma_insert_params_len(scopes, params.drop_last());
    }
}

/// `b` has as many scopes as `a`, each declaring at least the names that it
/// declares in `a`.
pub open spec fn scopes_grow(a: Scopes, b: Scopes) -> bool {
    &&& a.len() == b.len()
    &&& forall|i: int, n: Seq<char>|
        #![trigger a[i].contains_key(n)]
        0 <= i < a.len() && a[i].contains_key(n) ==> b[i].contains_key(n)
}

/// `b` has as many scopes as `a`, and the scopes below `upto` declare the same
/// names in both, each as the same kind of symbol (only types may differ).
pub open spec fn names_kept(a: Scopes, b: Scopes, upto: int) -> bool {
    &&& a.len() == b.len()
    &&& forall|i: int, n: Seq<char>|
        #![trigger b[i].contains_key(n)]
        #![trigger a[i].contains_key(n)]
        0 <= i < upto ==> b[i].contains_key(n) == a[i].contains_key(n)
    &&& forall|i: int, n: Seq<char>|
        #![trigger b[i][n]]
        #![trigger a[i][n]]
        0 <= i < upto && a[i].contains_key(n) ==> b[i][n].sym == a[i][n].sym
}

/// Below the innermost scope, `b` declares what `a` declares and nothing more,
/// each name as the same kind of symbol: only the innermost scope gains names.
pub open spec fn scopes_keep(a: Scopes, b: Scopes) -> bool {
    names_kept(a, b, a.len() - 1)
}

/// Declaring a name in the innermost scope keeps the scopes below it.
pub proof fn lemma_insert_keeps(scopes: Scopes, name: Seq<char>, sym: SSymbol)
    ensures
        scopes_keep(scopes, insert_scopes(scopes, name, sym)),
{
}

/// Entering a scope, parsing, and leaving it again keeps every scope from
/// before, the innermost one included.
pub proof fn lemma_keep_through_scope(a: Scopes, b: Scopes)
    requires
        scopes_keep(a.push(Map::empty()), b),
    ensures
        names_kept(a, b.drop_last(), a.len() as int),
{
    assert forall|i: int, n: Seq<char>| 0 <= i < a.len() implies #[trigger] b.drop_last()[i].contains_key(n)
        == a[i].contains_key(n) by {
        assert(a.push(Map::empty())[i] == a[i]);
        assert(b.drop_last()[i] == b[i]);
        assert(b[i].contains_key(n) == a.push(Map::empty())[i].contains_key(n));
    }
    assert forall|i: int, n: Seq<char>| 0 <= i < a.len() && a[i].contains_key(n) implies #[trigger] b.drop_last()[i][n].sym
        == a[i][n].sym by {
        assert(a.push(Map::empty())[i] == a[i]);
        assert(b.drop_last()[i] == b[i]);
        assert(a.push(Map::empty())[i].contains_key(n));
        assert(b[i][n].sym == a.push(Map::empty())[i][n].sym);
    }
}

/// Replacing the type of a declared name keeps every scope.
pub proof fn lemma_update_keeps(scopes: Scopes, name: Seq<char>, sym: SSymbol)
    requires
        lookup_scopes(scopes, name) matches Some(e) && e.sym == sym.sym,
    ensures
        names_kept(scopes, update_scopes(scopes, name, sym), scopes.len() as int),
{
    crate::symtab::lemma_scope_of(scopes, name);
}

/// Declaring parameters keeps the scopes below the innermost one.
pub proof fn lemma_insert_params_keeps(scopes: Scopes, params: Seq<SBinding>)
    ensures
        scopes_keep(scopes, insert_params(scopes, params)),
    decreases params.len(),
{
    if params.len() > 0 {
        lemma_insert_params_keeps(scopes, params.drop_last());
        lemma_insert_params_len(scopes, params.drop_last());
        let last = params.last();
        lemma_insert_keeps(insert_params(scopes, params.drop_last()), last.name.item, variable_symbol(last.name, last.ty));
    }
}

/// Declaring parameters only adds names.
pub proof fn lemma_insert_params_grows(scopes: Scopes, params: Seq<SBinding>)
    ensures
        scopes_grow(scopes, insert_params(scopes, params)),
    decreases params.len(),
{
    if params.len() > 0 {
        lemma_insert_params_grows(scopes, params.drop_last());
    }
}

/// The name that a statement declares in the scope where it stands, if any.
pub open spec fn declared_name(s: SStatement) -> Option<Seq<char>> {
    match s.stmt {
        SStmt::Variable { name, .. } => Some(name.name.item),
        SStmt::Function(f) => Some(f.name.item),
        SStmt::Class(c) => Some(c.name.item),
        _ => None,
    }
}

/// Entering a scope, adding names, and leaving the scope adds names to the
/// scopes from before.
pub proof fn lemma_grow_through_scope(a: Scopes, b: Scopes)
    requires
        scopes_grow(a.push(Map::empty()), b),
    ensures
        scopes_grow(a, b.drop_last()),
{
    assert forall|i: int, n: Seq<char>|
        0 <= i < a.len() && a[i].contains_key(n) implies #[trigger] b.drop_last()[i].contains_key(n) by {
        assert(a.push(Map::empty())[i] == a[i]);
        assert(a.push(Map::empty())[i].contains_key(n));
    }
}

/// Declaring a name only adds names.
pub proof fn lemma_insert_grows(scopes: Scopes, name: Seq<char>, sym: SSymbol)
    ensures
        scopes_grow(scopes, insert_scopes(scopes, name, sym)),
{
}

/// Replacing the symbol of a declared name only adds names.
pub proof fn lemma_update_grows(scopes: Scopes, name: Seq<char>, sym: SSymbol)
    requires
        lookup_scopes(scopes, name) is Some,
    ensures
        scopes_grow(scopes, update_scopes(scopes, name, sym)),
{
    crate::symtab::lemma_scope_of(scopes, name);
}

} // verus!
